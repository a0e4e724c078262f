//! The launcher's search session: the query's generation, the results that
//! answer it, and the selection within them.
//!
//! Searching runs elsewhere. Each change of the query starts a new
//! generation and yields a request to hand to the searcher; a response is
//! applied only when it carries the current generation, so the answer to a
//! superseded query is dropped.
use vstd::prelude::*;
use crate::desktop::{normalize_query, normalized_query};
use crate::selection::{move_selection, moved_rank};

verus! {

/// A search to run: the generation it answers and the normalised query.
pub struct SearchRequest {
    pub generation: u64,
    pub query: String,
}

/// The generation after `g` (wrapping).
pub open spec fn next_generation(g: u64) -> u64 {
    if g == u64::MAX {
        0
    } else {
        (g + 1) as u64
    }
}

/// The result indices while the query is empty: every application, up to
/// the result limit, in order.
pub open spec fn all_indices(count: int, max_results: int) -> Seq<usize> {
    Seq::new(
        (if count < max_results { count } else { max_results }) as nat,
        |i: int| i as usize,
    )
}

/// `rank` clamped to a list of `len` rows (zero for an empty list).
pub open spec fn clamp_rank(rank: int, len: int) -> int {
    if len <= 0 {
        0
    } else if rank < len - 1 {
        rank
    } else {
        len - 1
    }
}

/// The search and selection state of the launcher.
pub struct SearchSession {
    max_results: usize,
    app_count: usize,
    all_app_indices: Vec<usize>,
    filtered_indices: Vec<usize>,
    normalized_query: String,
    search_generation: u64,
    applied_search_generation: u64,
    search_in_flight: bool,
    selected_rank: usize,
    highlighted_rank: usize,
    scroll_start_rank: usize,
    selection_revision: u64,
}

impl SearchSession {
    pub closed spec fn max_results(&self) -> int {
        self.max_results as int
    }

    /// The number of applications known.
    pub closed spec fn app_count(&self) -> int {
        self.app_count as int
    }

    /// The indices shown for an empty query.
    pub closed spec fn all(&self) -> Seq<usize> {
        self.all_app_indices@
    }

    /// The indices currently shown, best first.
    pub closed spec fn filtered(&self) -> Seq<usize> {
        self.filtered_indices@
    }

    /// The normalised query.
    pub closed spec fn query(&self) -> Seq<char> {
        self.normalized_query@
    }

    /// The generation of the latest query.
    pub closed spec fn generation(&self) -> u64 {
        self.search_generation
    }

    /// The generation the shown results answer.
    pub closed spec fn applied(&self) -> u64 {
        self.applied_search_generation
    }

    /// Whether results for the latest query are still awaited.
    pub closed spec fn in_flight(&self) -> bool {
        self.search_in_flight
    }

    /// The selected rank.
    pub closed spec fn selected(&self) -> int {
        self.selected_rank as int
    }

    /// The highlighted rank.
    pub closed spec fn highlighted(&self) -> int {
        self.highlighted_rank as int
    }

    /// The first rendered rank.
    pub closed spec fn scroll_start(&self) -> int {
        self.scroll_start_rank as int
    }

    /// The selection revision.
    pub closed spec fn revision(&self) -> u64 {
        self.selection_revision
    }

    /// The session is consistent: the empty-query list is the applications
    /// up to the limit, and every rank lies inside the shown list (zero when
    /// it is empty).
    pub open spec fn wf(&self) -> bool {
        &&& self.all() == all_indices(self.app_count(), self.max_results())
        &&& self.selected() == clamp_rank(self.selected(), self.filtered().len() as int)
        &&& self.highlighted() == clamp_rank(self.highlighted(), self.filtered().len() as int)
        &&& self.scroll_start() == clamp_rank(self.scroll_start(), self.filtered().len() as int)
        &&& 0 <= self.selected() && 0 <= self.highlighted() && 0 <= self.scroll_start()
    }

    /// The selection state is reset: every rank is zero.
    pub open spec fn ranks_reset(&self) -> bool {
        self.selected() == 0 && self.highlighted() == 0 && self.scroll_start() == 0
    }

    /// An empty session: no applications, an empty query, generation zero.
    pub fn new(max_results: usize) -> (s: Self)
        ensures
            s.wf(),
            s.max_results() == max_results,
            s.app_count() == 0,
            s.filtered().len() == 0,
            s.query().len() == 0,
            s.generation() == 0,
            s.applied() == 0,
            !s.in_flight(),
            s.ranks_reset(),
            s.revision() == 0,
    {
        let s = SearchSession {
            max_results,
            app_count: 0,
            all_app_indices: Vec::new(),
            filtered_indices: Vec::new(),
            normalized_query: String::new(),
            search_generation: 0,
            applied_search_generation: 0,
            search_in_flight: false,
            selected_rank: 0,
            highlighted_rank: 0,
            scroll_start_rank: 0,
            selection_revision: 0,
        };
        assert(s.all() =~= all_indices(0, max_results as int));
        s
    }

    fn copy_all(&self) -> (r: Vec<usize>)
        ensures
            r@ == self.all(),
    {
        let mut r: Vec<usize> = Vec::new();
        let mut i: usize = 0;
        while i < self.all_app_indices.len()
            invariant
                i <= self.all_app_indices.len(),
                r@ == self.all_app_indices@.subrange(0, i as int),
            decreases self.all_app_indices.len() - i,
        {
            r.push(self.all_app_indices[i]);
            i = i + 1;
            assert(r@ =~= self.all_app_indices@.subrange(0, i as int));
        }
        assert(self.all_app_indices@.subrange(0, i as int) =~= self.all_app_indices@);
        r
    }

    /// A new query. The selection is reset and a new
    /// generation starts; the returned request carries it with the
    /// normalised query. An empty query shows every application at once and
    /// awaits nothing; any other keeps the shown results until its answer
    /// arrives.
    pub fn update_query(&mut self, query: &str) -> (req: SearchRequest)
        requires
            old(self).wf(),
        ensures
            final(self).wf(),
            final(self).query() == normalized_query(query@),
            final(self).generation() == next_generation(old(self).generation()),
            final(self).revision() == next_generation(old(self).revision()),
            req.generation == final(self).generation(),
            req.query@ == final(self).query(),
            final(self).ranks_reset(),
            final(self).app_count() == old(self).app_count(),
            final(self).max_results() == old(self).max_results(),
            final(self).query().len() == 0 ==> final(self).filtered() == final(self).all()
                && final(self).applied() == final(self).generation() && !final(self).in_flight(),
            final(self).query().len() > 0 ==> final(self).filtered() == old(self).filtered()
                && final(self).applied() == old(self).applied() && final(self).in_flight(),
    {
        self.selection_revision = self.selection_revision.wrapping_add(1);
        self.normalized_query = normalize_query(query);
        self.search_generation = self.search_generation.wrapping_add(1);
        let empty = self.normalized_query.as_str().is_empty();
        self.search_in_flight = !empty;
        self.selected_rank = 0;
        self.highlighted_rank = 0;
        self.scroll_start_rank = 0;
        if empty {
            self.filtered_indices = self.copy_all();
            self.applied_search_generation = self.search_generation;
            self.search_in_flight = false;
        }
        SearchRequest {
            generation: self.search_generation,
            query: self.normalized_query.clone(),
        }
    }

    /// New application list of `count` entries. The empty-query
    /// list becomes the first `min(count, limit)` indices and the selection
    /// is reset; with an empty query it is shown at once, otherwise the
    /// current query awaits new results.
    pub fn set_apps(&mut self, count: usize)
        requires
            old(self).wf(),
        ensures
            final(self).wf(),
            final(self).app_count() == count,
            final(self).all() == all_indices(count as int, old(self).max_results()),
            final(self).max_results() == old(self).max_results(),
            final(self).query() == old(self).query(),
            final(self).generation() == old(self).generation(),
            final(self).revision() == next_generation(old(self).revision()),
            final(self).ranks_reset(),
            final(self).query().len() == 0 ==> final(self).filtered() == final(self).all()
                && final(self).applied() == final(self).generation() && !final(self).in_flight(),
            final(self).query().len() > 0 ==> final(self).filtered() == old(self).filtered()
                && final(self).applied() == old(self).applied() && final(self).in_flight(),
    {
        self.selection_revision = self.selection_revision.wrapping_add(1);
        let limit = if count < self.max_results {
            count
        } else {
            self.max_results
        };
        let mut all: Vec<usize> = Vec::new();
        let mut i: usize = 0;
        while i < limit
            invariant
                i <= limit,
                all@ == Seq::new(i as nat, |k: int| k as usize),
            decreases limit - i,
        {
            all.push(i);
            i = i + 1;
            assert(all@ =~= Seq::new(i as nat, |k: int| k as usize));
        }
        self.all_app_indices = all;
        self.app_count = count;
        assert(self.all() =~= all_indices(count as int, self.max_results as int));
        let empty = self.normalized_query.as_str().is_empty();
        self.search_in_flight = !empty;
        self.selected_rank = 0;
        self.highlighted_rank = 0;
        self.scroll_start_rank = 0;
        if empty {
            self.filtered_indices = self.copy_all();
            self.applied_search_generation = self.search_generation;
            self.search_in_flight = false;
        }
    }

    fn reconcile_filtered_selection(&mut self)
        requires
            old(self).all() == all_indices(old(self).app_count(), old(self).max_results()),
        ensures
            final(self).wf(),
            final(self).selected() == clamp_rank(old(self).selected(), old(self).filtered().len() as int),
            final(self).highlighted() == clamp_rank(old(self).highlighted(), old(self).filtered().len() as int),
            final(self).scroll_start() == clamp_rank(old(self).scroll_start(), old(self).filtered().len() as int),
            final(self).filtered() == old(self).filtered(),
            final(self).all() == old(self).all(),
            final(self).app_count() == old(self).app_count(),
            final(self).max_results() == old(self).max_results(),
            final(self).query() == old(self).query(),
            final(self).generation() == old(self).generation(),
            final(self).applied() == old(self).applied(),
            final(self).in_flight() == old(self).in_flight(),
            final(self).revision() == old(self).revision(),
    {
        let len = self.filtered_indices.len();
        if len == 0 {
            self.selected_rank = 0;
            self.highlighted_rank = 0;
            self.scroll_start_rank = 0;
            return;
        }
        if self.selected_rank > len - 1 {
            self.selected_rank = len - 1;
        }
        if self.highlighted_rank > len - 1 {
            self.highlighted_rank = len - 1;
        }
        if self.scroll_start_rank > len - 1 {
            self.scroll_start_rank = len - 1;
        }
    }

    /// A searcher's answer. An answer for another
    /// generation than the latest is dropped and changes nothing; the
    /// latest one is shown, the wait ends, and the ranks are clamped to it.
    pub fn apply_search_results(&mut self, generation: u64, matches: Vec<usize>) -> (applied: bool)
        requires
            old(self).wf(),
        ensures
            final(self).wf(),
            applied == (generation == old(self).generation()),
            !applied ==> *final(self) == *old(self),
            applied ==> {
                &&& final(self).filtered() == matches@
                &&& final(self).applied() == generation
                &&& !final(self).in_flight()
                &&& final(self).selected() == clamp_rank(old(self).selected(), matches@.len() as int)
                &&& final(self).highlighted() == clamp_rank(old(self).highlighted(), matches@.len() as int)
                &&& final(self).scroll_start() == clamp_rank(old(self).scroll_start(), matches@.len() as int)
                &&& final(self).query() == old(self).query()
                &&& final(self).generation() == old(self).generation()
                &&& final(self).all() == old(self).all()
                &&& final(self).revision() == old(self).revision()
            },
    {
        if generation != self.search_generation {
            return false;
        }
        self.search_in_flight = false;
        self.filtered_indices = matches;
        self.applied_search_generation = generation;
        self.reconcile_filtered_selection();
        true
    }

    /// Shows results ranked on the spot for the latest query: they count as the answer to the latest
    /// generation and the ranks are clamped to them.
    pub fn apply_search_results_sync(&mut self, matches: Vec<usize>)
        requires
            old(self).wf(),
        ensures
            final(self).wf(),
            final(self).filtered() == matches@,
            final(self).applied() == old(self).generation(),
            final(self).generation() == old(self).generation(),
            final(self).in_flight() == old(self).in_flight(),
            final(self).query() == old(self).query(),
            final(self).all() == old(self).all(),
            final(self).selected() == clamp_rank(old(self).selected(), matches@.len() as int),
            final(self).revision() == old(self).revision(),
    {
        self.filtered_indices = matches;
        self.applied_search_generation = self.search_generation;
        self.reconcile_filtered_selection();
    }

    /// The searcher could not take the request: the wait ends and results
    /// ranked on the spot are shown instead.
    pub fn apply_fallback_results(&mut self, matches: Vec<usize>)
        requires
            old(self).wf(),
        ensures
            final(self).wf(),
            final(self).filtered() == matches@,
            final(self).applied() == old(self).generation(),
            final(self).generation() == old(self).generation(),
            !final(self).in_flight(),
            final(self).query() == old(self).query(),
            final(self).selected() == clamp_rank(old(self).selected(), matches@.len() as int),
    {
        self.search_in_flight = false;
        self.apply_search_results_sync(matches);
    }

    /// Clears the query: every application is shown,
    /// a new generation starts and nothing is awaited. The returned request
    /// carries the new generation and the empty query.
    pub fn reset_search_state(&mut self) -> (req: SearchRequest)
        requires
            old(self).wf(),
        ensures
            final(self).wf(),
            final(self).query().len() == 0,
            final(self).filtered() == final(self).all(),
            final(self).all() == old(self).all(),
            final(self).generation() == next_generation(old(self).generation()),
            final(self).applied() == final(self).generation(),
            !final(self).in_flight(),
            req.generation == final(self).generation(),
            req.query@.len() == 0,
    {
        self.normalized_query = String::new();
        self.filtered_indices = self.copy_all();
        self.search_generation = self.search_generation.wrapping_add(1);
        self.applied_search_generation = self.search_generation;
        self.search_in_flight = false;
        self.reconcile_filtered_selection();
        SearchRequest { generation: self.search_generation, query: String::new() }
    }

    /// The application index of the selected row, if a row can be chosen:
    /// none while a calculation is shown, while a non-empty query awaits its
    /// results, or when no result is shown.
    pub fn selected_result_index(&self, calculation_shown: bool) -> (r: Option<usize>)
        requires
            self.wf(),
        ensures
            r == (if calculation_shown || (self.query().len() > 0 && self.applied()
                != self.generation()) || self.filtered().len() == 0 {
                None
            } else {
                Some(self.filtered()[self.selected()])
            }),
    {
        if calculation_shown {
            return None;
        }
        if !self.normalized_query.as_str().is_empty()
            && self.applied_search_generation != self.search_generation {
            return None;
        }
        if self.filtered_indices.len() == 0 {
            return None;
        }
        Some(self.filtered_indices[self.selected_rank])
    }

    /// Moves the selection by `offset` rows, clamped to the shown results.
    pub fn move_selection(&mut self, offset: isize)
        requires
            old(self).wf(),
            old(self).filtered().len() <= isize::MAX,
            old(self).selected() + offset <= isize::MAX,
        ensures
            final(self).wf(),
            final(self).selected() == moved_rank(old(self).selected(), old(self).filtered().len() as int, offset as int),
            final(self).filtered() == old(self).filtered(),
            final(self).highlighted() == old(self).highlighted(),
            final(self).generation() == old(self).generation(),
            final(self).applied() == old(self).applied(),
            final(self).query() == old(self).query(),
            final(self).in_flight() == old(self).in_flight(),
            final(self).revision() == old(self).revision(),
    {
        self.selected_rank = move_selection(self.selected_rank, self.filtered_indices.len(), offset);
    }

    /// Starts a new selection revision.
    pub fn bump_selection_revision(&mut self) -> (r: u64)
        requires
            old(self).wf(),
        ensures
            final(self).wf(),
            r == final(self).revision(),
            final(self).revision() == next_generation(old(self).revision()),
            final(self).selected() == old(self).selected(),
            final(self).filtered() == old(self).filtered(),
    {
        self.selection_revision = self.selection_revision.wrapping_add(1);
        self.selection_revision
    }

    /// Highlights `rank` (clamped) if `revision` is still the current one; a late request changes nothing.
    pub fn sync_highlighted_rank(&mut self, revision: u64, rank: usize)
        requires
            old(self).wf(),
        ensures
            final(self).wf(),
            revision != old(self).revision() ==> *final(self) == *old(self),
            revision == old(self).revision() ==> final(self).highlighted() == clamp_rank(
                rank as int,
                old(self).filtered().len() as int,
            ) && final(self).selected() == old(self).selected(),
    {
        if revision != self.selection_revision {
            return;
        }
        let len = self.filtered_indices.len();
        self.highlighted_rank = if len == 0 {
            0
        } else if rank < len - 1 {
            rank
        } else {
            len - 1
        };
    }

    /// Sets the first rendered rank from a scroll position, clamped to the list.
    pub fn set_scroll_start(&mut self, start: usize)
        requires
            old(self).wf(),
        ensures
            final(self).wf(),
            final(self).scroll_start() == clamp_rank(start as int, old(self).filtered().len() as int),
            final(self).selected() == old(self).selected(),
            final(self).filtered() == old(self).filtered(),
    {
        let len = self.filtered_indices.len();
        self.scroll_start_rank = if len == 0 {
            0
        } else if start < len - 1 {
            start
        } else {
            len - 1
        };
    }

    /// The shown result indices.
    pub fn filtered_indices(&self) -> (r: &[usize])
        ensures
            r@ == self.filtered(),
    {
        self.filtered_indices.as_slice()
    }

    /// The latest generation.
    pub fn search_generation(&self) -> (r: u64)
        ensures
            r == self.generation(),
    {
        self.search_generation
    }

    /// Whether results for the latest query are awaited.
    pub fn search_in_flight(&self) -> (r: bool)
        ensures
            r == self.in_flight(),
    {
        self.search_in_flight
    }

    /// The selected rank.
    pub fn selected_rank(&self) -> (r: usize)
        ensures
            r == self.selected(),
    {
        self.selected_rank
    }

    /// The highlighted rank.
    pub fn highlighted_rank(&self) -> (r: usize)
        ensures
            r == self.highlighted(),
    {
        self.highlighted_rank
    }

    /// The first rendered rank.
    pub fn scroll_start_rank(&self) -> (r: usize)
        ensures
            r == self.scroll_start(),
    {
        self.scroll_start_rank
    }

    /// The current selection revision.
    pub fn selection_revision(&self) -> (r: u64)
        ensures
            r == self.revision(),
    {
        self.selection_revision
    }

    /// The normalised query.
    pub fn normalized_query(&self) -> (r: &str)
        ensures
            r@ == self.query(),
    {
        self.normalized_query.as_str()
    }
}

/// A request is answered only while it is the latest: the next query always
/// starts a different generation, so the answer to the one before is
/// dropped by `apply_search_results`.
pub proof fn lemma_superseded_generation_differs(g: u64)
    ensures
        next_generation(g) != g,
{
}

/// After an answer to the latest non-empty query with at least one match
/// is applied, a row can be chosen and it is the match at the clamped
/// selected rank.
pub proof fn lemma_applied_results_are_selectable(s: &SearchSession)
    requires
        s.wf(),
        s.applied() == s.generation(),
        s.filtered().len() > 0,
    ensures
        0 <= s.selected() < s.filtered().len(),
{
}

} // verus!
