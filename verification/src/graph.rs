//! The commit graph: one row of lane cells per commit, in log order.
use vstd::prelude::*;

use crate::log::{CommitInfo, CommitInfoView};

verus! {

#[derive(Debug, Clone, Copy, PartialEq, Eq, Structural)]
pub struct GraphCell {
    pub symbol: char,
    pub color_index: usize,
}

#[derive(Debug, Clone, PartialEq)]
pub struct GraphRow {
    pub cells: Vec<GraphCell>,
}

impl View for GraphRow {
    type V = Seq<GraphCell>;

    open spec fn view(&self) -> Seq<GraphCell> {
        self.cells@
    }
}

pub open spec fn rows_view(v: Seq<GraphRow>) -> Seq<Seq<GraphCell>> {
    v.map_values(|r: GraphRow| r@)
}

/// `i` is the first index at which `x` occurs in `s`.
pub open spec fn is_first_index<A>(s: Seq<A>, x: A, i: int) -> bool {
    0 <= i < s.len() && s[i] == x && forall|j: int| 0 <= j < i ==> s[j] != x
}

/// The first index at which `x` occurs in `s` (`Iterator::position`).
pub open spec fn first_index<A>(s: Seq<A>, x: A) -> Option<int> {
    if exists|i: int| is_first_index(s, x, i) {
        Some(choose|i: int| is_first_index(s, x, i))
    } else {
        None
    }
}

pub proof fn lemma_first_index<A>(s: Seq<A>, x: A, i: int)
    requires
        is_first_index(s, x, i),
    ensures
        first_index(s, x) == Some(i),
{
    let k = choose|k: int| is_first_index(s, x, k);
    if k < i {
        assert(s[k] != x);
    } else if i < k {
        assert(s[i] != x);
    }
}

pub proof fn lemma_first_index_none<A>(s: Seq<A>, x: A)
    requires
        forall|j: int| 0 <= j < s.len() ==> s[j] != x,
    ensures
        first_index(s, x) is None,
{
}

/// The lanes of the graph between two rows: the commit each lane waits for.
pub struct Lanes {
    pub lanes: Seq<Option<Seq<char>>>,
    pub colors: Seq<usize>,
    pub next_color: nat,
}

/// A free lane (the first empty one, else a new one at the right) takes
/// `hash`, with the next color.
pub open spec fn claim(st: Lanes, hash: Seq<char>) -> (Lanes, int) {
    match first_index(st.lanes, None::<Seq<char>>) {
        Some(p) => (
            Lanes {
                lanes: st.lanes.update(p, Some(hash)),
                colors: st.colors.update(p, st.next_color as usize),
                next_color: st.next_color + 1,
            },
            p,
        ),
        None => (
            Lanes {
                lanes: st.lanes.push(Some(hash)),
                colors: st.colors.push(st.next_color as usize),
                next_color: st.next_color + 1,
            },
            st.lanes.len() as int,
        ),
    }
}

/// The lane of a commit: the first lane waiting for it, else a claimed one.
pub open spec fn place(st: Lanes, hash: Seq<char>) -> (Lanes, int) {
    match first_index(st.lanes, Some(hash)) {
        Some(p) => (st, p),
        None => claim(st, hash),
    }
}

/// The row of a commit in lane `lane`: `*` there in the lane's color, `|`
/// in the lane's color for every other lane that waits for a commit, and
/// a blank with color 0 for an empty lane.
pub open spec fn row_cells(st: Lanes, lane: int) -> Seq<GraphCell> {
    Seq::new(
        st.lanes.len(),
        |i: int|
            if i == lane {
                GraphCell { symbol: '*', color_index: st.colors[lane] }
            } else if st.lanes[i] is Some {
                GraphCell { symbol: '|', color_index: st.colors[i] }
            } else {
                GraphCell { symbol: ' ', color_index: 0 }
            },
    )
}

/// The further parents of a merge, in order: each that no lane waits for
/// yet gets a claimed lane.
pub open spec fn add_parents(st: Lanes, parents: Seq<Seq<char>>) -> Lanes
    decreases parents.len(),
{
    if parents.len() == 0 {
        st
    } else {
        let prev = add_parents(st, parents.drop_last());
        if prev.lanes.contains(Some(parents.last())) {
            prev
        } else {
            claim(prev, parents.last()).0
        }
    }
}

/// Each lane that waits for the same commit as an earlier lane is emptied.
pub open spec fn dedup_lanes(lanes: Seq<Option<Seq<char>>>) -> Seq<Option<Seq<char>>> {
    Seq::new(
        lanes.len(),
        |i: int|
            if lanes[i] is Some && exists|j: int| 0 <= j < i && lanes[j] == lanes[i] {
                None
            } else {
                lanes[i]
            },
    )
}

/// Empty lanes at the right are dropped, with their colors.
pub open spec fn strip_trailing(lanes: Seq<Option<Seq<char>>>, colors: Seq<usize>) -> (Seq<Option<Seq<char>>>, Seq<usize>)
    decreases lanes.len(),
{
    if lanes.len() > 0 && lanes.last() is None {
        strip_trailing(lanes.drop_last(), colors.drop_last())
    } else {
        (lanes, colors)
    }
}

/// The lanes after a commit's row: its lane now waits for its first parent
/// (or is emptied for a root commit), the other parents are added, then
/// duplicate and trailing empty lanes are cleaned up.
pub open spec fn after_commit(placed: Lanes, lane: int, c: CommitInfoView) -> Lanes {
    let st2 = if c.parent_hashes.len() == 0 {
        Lanes { lanes: placed.lanes.update(lane, None), ..placed }
    } else {
        add_parents(
            Lanes { lanes: placed.lanes.update(lane, Some(c.parent_hashes[0])), ..placed },
            c.parent_hashes.drop_first(),
        )
    };
    let (l, cs) = strip_trailing(dedup_lanes(st2.lanes), st2.colors);
    Lanes { lanes: l, colors: cs, next_color: st2.next_color }
}

pub struct GraphState {
    pub lanes: Lanes,
    pub rows: Seq<Seq<GraphCell>>,
}

pub open spec fn graph_step(gs: GraphState, c: CommitInfoView) -> GraphState {
    let (placed, lane) = place(gs.lanes, c.hash);
    GraphState { lanes: after_commit(placed, lane, c), rows: gs.rows.push(row_cells(placed, lane)) }
}

pub open spec fn graph_scan(cs: Seq<CommitInfoView>) -> GraphState
    decreases cs.len(),
{
    if cs.len() == 0 {
        GraphState { lanes: Lanes { lanes: seq![], colors: seq![], next_color: 0 }, rows: seq![] }
    } else {
        graph_step(graph_scan(cs.drop_last()), cs.last())
    }
}

/// The rows of the graph of a list of commits, newest first.
pub open spec fn graph_rows(cs: Seq<CommitInfoView>) -> Seq<Seq<GraphCell>> {
    graph_scan(cs).rows
}

/// The number of lanes the graph may claim: one per commit and one per
/// parent.
pub open spec fn claims_bound(cs: Seq<CommitInfoView>) -> nat
    decreases cs.len(),
{
    if cs.len() == 0 {
        0
    } else {
        claims_bound(cs.drop_last()) + 1 + cs.last().parent_hashes.len()
    }
}

// ---------------------------------------------------------------------------
// Executable lanes
// ---------------------------------------------------------------------------

pub open spec fn lanes_view(v: Seq<Option<String>>) -> Seq<Option<Seq<char>>> {
    v.map_values(|l: Option<String>| match l {
        Some(s) => Some(s@),
        None => None,
    })
}

struct LaneState {
    lanes: Vec<Option<String>>,
    colors: Vec<usize>,
    next_color: usize,
}

impl LaneState {
    spec fn lanes_spec(&self) -> Lanes {
        Lanes { lanes: lanes_view(self.lanes@), colors: self.colors@, next_color: self.next_color as nat }
    }

    spec fn wf(&self) -> bool {
        self.lanes@.len() == self.colors@.len()
    }

    /// The first lane waiting for `hash`.
    fn find_lane(&self, hash: &String) -> (r: Option<usize>)
        ensures
            match r {
                Some(p) => first_index(self.lanes_spec().lanes, Some(hash@)) == Some(p as int),
                None => first_index(self.lanes_spec().lanes, Some(hash@)) is None,
            },
    {
        let ghost lv = lanes_view(self.lanes@);
        let mut i: usize = 0;
        while i < self.lanes.len()
            invariant
                lv == lanes_view(self.lanes@),
                i <= self.lanes@.len(),
                forall|j: int| 0 <= j < i ==> lv[j] != Some(hash@),
            decreases self.lanes.len() - i,
        {
            let hit = match &self.lanes[i] {
                Some(s) => *s == *hash,
                None => false,
            };
            if hit {
                proof {
                    lemma_first_index(lv, Some(hash@), i as int);
                }
                return Some(i);
            }
            i += 1;
        }
        proof {
            lemma_first_index_none(lv, Some(hash@));
        }
        None
    }

    /// The first empty lane.
    fn find_free(&self) -> (r: Option<usize>)
        ensures
            match r {
                Some(p) => first_index(self.lanes_spec().lanes, None::<Seq<char>>) == Some(p as int),
                None => first_index(self.lanes_spec().lanes, None::<Seq<char>>) is None,
            },
    {
        let ghost lv = lanes_view(self.lanes@);
        let mut i: usize = 0;
        while i < self.lanes.len()
            invariant
                lv == lanes_view(self.lanes@),
                i <= self.lanes@.len(),
                forall|j: int| 0 <= j < i ==> lv[j] != None::<Seq<char>>,
            decreases self.lanes.len() - i,
        {
            if self.lanes[i].is_none() {
                proof {
                    lemma_first_index(lv, None::<Seq<char>>, i as int);
                }
                return Some(i);
            }
            i += 1;
        }
        proof {
            lemma_first_index_none(lv, None::<Seq<char>>);
        }
        None
    }

    /// Whether some lane waits for `hash`.
    fn has_lane(&self, hash: &String) -> (b: bool)
        ensures
            b == self.lanes_spec().lanes.contains(Some(hash@)),
    {
        let r = self.find_lane(hash);
        proof {
            let lv = self.lanes_spec().lanes;
            if r is None {
                if lv.contains(Some(hash@)) {
                    let k = choose|k: int| 0 <= k < lv.len() && lv[k] == Some(hash@);
                    assert(exists|i: int| is_first_index(lv, Some(hash@), i)) by {
                        lemma_exists_first(lv, Some(hash@), k);
                    }
                }
            } else {
                let k = choose|i: int| is_first_index(lv, Some(hash@), i);
                assert(lv[k] == Some(hash@));
            }
        }
        r.is_some()
    }

    fn claim(&mut self, hash: String) -> (pos: usize)
        requires
            old(self).wf(),
            old(self).next_color < usize::MAX,
        ensures
            final(self).wf(),
            (final(self).lanes_spec(), pos as int) == claim(old(self).lanes_spec(), hash@),
    {
        let ghost hv = hash@;
        let ghost lv = lanes_view(self.lanes@);
        match self.find_free() {
            Some(p) => {
                self.lanes.set(p, Some(hash));
                self.colors.set(p, self.next_color);
                self.next_color = self.next_color + 1;
                assert(lanes_view(self.lanes@) =~= lv.update(p as int, Some(hv)));
                p
            },
            None => {
                self.lanes.push(Some(hash));
                self.colors.push(self.next_color);
                self.next_color = self.next_color + 1;
                assert(lanes_view(self.lanes@) =~= lv.push(Some(hv)));
                self.lanes.len() - 1
            },
        }
    }
}

impl LaneState {
    fn place(&mut self, hash: &String) -> (lane: usize)
        requires
            old(self).wf(),
            old(self).next_color < usize::MAX,
        ensures
            final(self).wf(),
            (final(self).lanes_spec(), lane as int) == place(old(self).lanes_spec(), hash@),
            final(self).next_color <= old(self).next_color + 1,
            lane < final(self).lanes@.len(),
    {
        match self.find_lane(hash) {
            Some(p) => {
                proof {
                    let k = choose|i: int| is_first_index(self.lanes_spec().lanes, Some(hash@), i);
                    assert(is_first_index(self.lanes_spec().lanes, Some(hash@), k));
                }
                p
            },
            None => {
                let ghost before = self.lanes_spec();
                let p = self.claim(hash.clone());
                proof {
                    match first_index(before.lanes, None::<Seq<char>>) {
                        Some(q) => {
                            let k = choose|i: int| is_first_index(before.lanes, None::<Seq<char>>, i);
                            assert(is_first_index(before.lanes, None::<Seq<char>>, k));
                        },
                        None => {},
                    }
                }
                p
            },
        }
    }

    fn row(&self, lane: usize) -> (cells: Vec<GraphCell>)
        requires
            self.wf(),
            lane < self.lanes@.len(),
        ensures
            cells@ == row_cells(self.lanes_spec(), lane as int),
    {
        let ghost lv = self.lanes_spec();
        let mut cells: Vec<GraphCell> = Vec::new();
        let mut i: usize = 0;
        while i < self.lanes.len()
            invariant
                self.wf(),
                lv == self.lanes_spec(),
                lane < self.lanes@.len(),
                i <= self.lanes@.len(),
                cells@ =~= row_cells(lv, lane as int).take(i as int),
            decreases self.lanes.len() - i,
        {
            let cell = if i == lane {
                GraphCell { symbol: '*', color_index: self.colors[lane] }
            } else if self.lanes[i].is_some() {
                GraphCell { symbol: '|', color_index: self.colors[i] }
            } else {
                GraphCell { symbol: ' ', color_index: 0 }
            };
            cells.push(cell);
            i += 1;
        }
        cells
    }

    /// Whether a lane before `i` waits for what lane `i` waits for.
    fn has_earlier(&self, i: usize) -> (b: bool)
        requires
            i < self.lanes@.len(),
        ensures
            b == exists|j: int| 0 <= j < i && lanes_view(self.lanes@)[j] == lanes_view(self.lanes@)[i as int],
    {
        let ghost cur = lanes_view(self.lanes@);
        let mut j: usize = 0;
        while j < i
            invariant
                i < self.lanes@.len(),
                cur == lanes_view(self.lanes@),
                j <= i,
                forall|m: int| 0 <= m < j ==> cur[m] != cur[i as int],
            decreases i - j,
        {
            let same = match (&self.lanes[j], &self.lanes[i]) {
                (Some(a), Some(b)) => *a == *b,
                (None, None) => true,
                _ => false,
            };
            if same {
                assert(cur[j as int] == cur[i as int]);
                return true;
            }
            j += 1;
        }
        false
    }

    /// Empties each lane that waits for the same commit as an earlier lane.
    fn dedup(&mut self)
        requires
            old(self).wf(),
        ensures
            final(self).wf(),
            final(self).lanes_spec() == (Lanes { lanes: dedup_lanes(old(self).lanes_spec().lanes), ..old(self).lanes_spec() }),
    {
        let ghost orig = lanes_view(self.lanes@);
        let ghost target = dedup_lanes(orig);
        let ghost colors0 = self.colors@;
        let ghost next0 = self.next_color;
        let mut i: usize = 0;
        while i < self.lanes.len()
            invariant
                self.wf(),
                self.colors@ == colors0,
                self.next_color == next0,
                orig.len() == self.lanes@.len(),
                target == dedup_lanes(orig),
                i <= self.lanes@.len(),
                forall|k: int| 0 <= k < i ==> #[trigger] lanes_view(self.lanes@)[k] == target[k],
                forall|k: int| i <= k < orig.len() ==> #[trigger] lanes_view(self.lanes@)[k] == orig[k],
            decreases self.lanes.len() - i,
        {
            let ghost cur = lanes_view(self.lanes@);
            let earlier = self.lanes[i].is_some() && self.has_earlier(i);
            proof {
                // An earlier lane waits for the same commit now exactly when one did before.
                if cur[i as int] is Some {
                    if exists|j: int| 0 <= j < i && orig[j] == orig[i as int] {
                        let j = choose|j: int| 0 <= j < i && orig[j] == orig[i as int];
                        lemma_exists_first(orig, orig[i as int], j);
                        let j0 = choose|m: int| is_first_index(orig, orig[i as int], m);
                        assert(j0 <= j);
                        assert(target[j0] == orig[j0]);
                        assert(cur[j0] == cur[i as int]);
                    } else {
                        assert forall|m: int| 0 <= m < i implies cur[m] != cur[i as int] by {
                            assert(cur[m] == target[m]);
                        }
                    }
                }
            }
            if earlier {
                self.lanes.set(i, None);
            }
            proof {
                assert forall|k: int| 0 <= k < i + 1 implies #[trigger] lanes_view(self.lanes@)[k] == target[k] by {
                    if k < i {
                        assert(lanes_view(self.lanes@)[k] == cur[k]);
                    }
                }
                assert forall|k: int| i + 1 <= k < orig.len() implies #[trigger] lanes_view(self.lanes@)[k] == orig[k] by {
                    assert(lanes_view(self.lanes@)[k] == cur[k]);
                }
            }
            i += 1;
        }
        assert(lanes_view(self.lanes@) =~= target);
    }

    /// Drops the empty lanes at the right, with their colors.
    fn strip(&mut self)
        requires
            old(self).wf(),
        ensures
            final(self).wf(),
            final(self).next_color == old(self).next_color,
            (final(self).lanes_spec().lanes, final(self).lanes_spec().colors) == strip_trailing(
                old(self).lanes_spec().lanes,
                old(self).lanes_spec().colors,
            ),
    {
        let ghost target = strip_trailing(lanes_view(self.lanes@), self.colors@);
        let ghost next0 = self.next_color;
        while self.lanes.len() > 0 && self.lanes[self.lanes.len() - 1].is_none()
            invariant
                self.wf(),
                self.next_color == next0,
                target == strip_trailing(lanes_view(self.lanes@), self.colors@),
            decreases self.lanes.len(),
        {
            let ghost lv = lanes_view(self.lanes@);
            let ghost cv = self.colors@;
            self.lanes.pop();
            self.colors.pop();
            assert(lanes_view(self.lanes@) =~= lv.drop_last());
            assert(self.colors@ =~= cv.drop_last());
        }
    }
}

impl LaneState {
    fn after_commit(&mut self, lane: usize, c: &CommitInfo)
        requires
            old(self).wf(),
            lane < old(self).lanes@.len(),
            old(self).next_color + c.parent_hashes@.len() <= usize::MAX,
        ensures
            final(self).wf(),
            final(self).lanes_spec() == after_commit(old(self).lanes_spec(), lane as int, c@),
            final(self).next_color <= old(self).next_color + c.parent_hashes@.len(),
    {
        let ghost placed = self.lanes_spec();
        let ghost cv = c@;
        let np = c.parent_hashes.len();
        if np == 0 {
            let ghost lv = lanes_view(self.lanes@);
            self.lanes.set(lane, None);
            assert(lanes_view(self.lanes@) =~= lv.update(lane as int, None));
        } else {
            let ghost lv = lanes_view(self.lanes@);
            self.lanes.set(lane, Some(c.parent_hashes[0].clone()));
            assert(lanes_view(self.lanes@) =~= lv.update(lane as int, Some(cv.parent_hashes[0])));
            let ghost base = self.lanes_spec();
            let ghost rest = cv.parent_hashes.drop_first();
            let mut k: usize = 1;
            assert(rest.take(0) =~= Seq::<Seq<char>>::empty());
            while k < np
                invariant
                    self.wf(),
                    1 <= k <= np,
                    np == c.parent_hashes@.len(),
                    cv == c@,
                    rest == cv.parent_hashes.drop_first(),
                    self.lanes_spec() == add_parents(base, rest.take(k - 1)),
                    base.next_color == placed.next_color,
                    self.next_color <= placed.next_color + (k - 1),
                    placed.next_color + np <= usize::MAX,
                decreases np - k,
            {
                let parent = &c.parent_hashes[k];
                assert(rest.take(k as int).drop_last() =~= rest.take(k - 1));
                assert(rest.take(k as int).last() == parent@);
                if !self.has_lane(parent) {
                    self.claim(parent.clone());
                }
                k += 1;
            }
            assert(rest.take(np - 1) =~= rest);
        }
        self.dedup();
        self.strip();
    }
}

proof fn lemma_claims_bound_prefix(cs: Seq<CommitInfoView>, k: int)
    requires
        0 <= k <= cs.len(),
    ensures
        claims_bound(cs.take(k)) <= claims_bound(cs),
    decreases cs.len() - k,
{
    if k < cs.len() {
        lemma_claims_bound_prefix(cs, k + 1);
        assert(cs.take(k + 1).drop_last() =~= cs.take(k));
    } else {
        assert(cs.take(k) =~= cs);
    }
}

/// Whether `build_graph` can count the lanes of `commits` in a `usize`.
pub fn graph_fits(commits: &[CommitInfo]) -> (b: bool)
    ensures
        b == (claims_bound(commits@.map_values(|c: CommitInfo| c@)) < usize::MAX),
{
    let ghost cv = commits@.map_values(|c: CommitInfo| c@);
    let mut total: usize = 0;
    let mut i: usize = 0;
    assert(cv.take(0) =~= Seq::<CommitInfoView>::empty());
    while i < commits.len()
        invariant
            cv == commits@.map_values(|c: CommitInfo| c@),
            i <= commits@.len(),
            total == claims_bound(cv.take(i as int)),
            total < usize::MAX,
        decreases commits.len() - i,
    {
        assert(cv.take(i + 1).drop_last() =~= cv.take(i as int));
        assert(cv[i as int] == commits@[i as int]@);
        let n = commits[i].parent_hashes.len();
        if n >= usize::MAX - 1 - total {
            proof {
                lemma_claims_bound_prefix(cv, i + 1);
            }
            return false;
        }
        total = total + 1 + n;
        i += 1;
    }
    assert(cv.take(commits@.len() as int) =~= cv);
    true
}

/// The rows of the commit graph of `commits` (newest first): for each
/// commit, one cell per lane, `*` in the commit's own lane.
pub fn build_graph(commits: &[CommitInfo]) -> (rows: Vec<GraphRow>)
    requires
        claims_bound(commits@.map_values(|c: CommitInfo| c@)) < usize::MAX,
    ensures
        rows_view(rows@) == graph_rows(commits@.map_values(|c: CommitInfo| c@)),
{
    let ghost cv = commits@.map_values(|c: CommitInfo| c@);
    let mut st = LaneState { lanes: Vec::new(), colors: Vec::new(), next_color: 0 };
    let mut rows: Vec<GraphRow> = Vec::new();
    let mut i: usize = 0;
    assert(cv.take(0) =~= Seq::<CommitInfoView>::empty());
    assert(lanes_view(st.lanes@) =~= Seq::<Option<Seq<char>>>::empty());
    assert(st.colors@ =~= Seq::<usize>::empty());
    assert(rows_view(rows@) =~= Seq::<Seq<GraphCell>>::empty());
    while i < commits.len()
        invariant
            cv == commits@.map_values(|c: CommitInfo| c@),
            claims_bound(cv) < usize::MAX,
            i <= commits@.len(),
            st.wf(),
            st.next_color <= claims_bound(cv.take(i as int)),
            graph_scan(cv.take(i as int)) == (GraphState { lanes: st.lanes_spec(), rows: rows_view(rows@) }),
        decreases commits.len() - i,
    {
        let c = &commits[i];
        assert(cv[i as int] == c@);
        assert(cv.take(i + 1).drop_last() =~= cv.take(i as int));
        proof {
            lemma_claims_bound_prefix(cv, i + 1);
        }
        let lane = st.place(&c.hash);
        let cells = st.row(lane);
        st.after_commit(lane, c);
        let ghost prev = rows@;
        let row = GraphRow { cells };
        rows.push(row);
        assert(rows_view(rows@) =~= rows_view(prev).push(row@));
        i += 1;
    }
    assert(cv.take(commits@.len() as int) =~= cv);
    rows
}

pub proof fn lemma_exists_first<A>(s: Seq<A>, x: A, k: int)
    requires
        0 <= k < s.len(),
        s[k] == x,
    ensures
        exists|i: int| is_first_index(s, x, i),
    decreases k,
{
    if exists|j: int| 0 <= j < k && s[j] == x {
        let j = choose|j: int| 0 <= j < k && s[j] == x;
        lemma_exists_first(s, x, j);
    } else {
        assert(is_first_index(s, x, k));
    }
}

} // verus!

verus! {

pub proof fn lemma_first_index_bounds<A>(s: Seq<A>, x: A)
    ensures
        first_index(s, x) matches Some(p) ==> 0 <= p < s.len() && s[p] == x,
{
    if first_index(s, x) is Some {
        let k = choose|i: int| is_first_index(s, x, i);
        assert(is_first_index(s, x, k));
    }
}

pub proof fn lemma_place_bounds(st: Lanes, hash: Seq<char>)
    ensures
        0 <= place(st, hash).1 < place(st, hash).0.lanes.len(),
        place(st, hash).0.lanes.len() == st.lanes.len() || place(st, hash).0.lanes.len() == st.lanes.len() + 1,
{
    lemma_first_index_bounds(st.lanes, Some(hash));
    lemma_first_index_bounds(st.lanes, None::<Seq<char>>);
}

/// Every commit gets exactly one row.
pub proof fn lemma_one_row_per_commit(cs: Seq<CommitInfoView>)
    ensures
        graph_rows(cs).len() == cs.len(),
    decreases cs.len(),
{
    if cs.len() > 0 {
        lemma_one_row_per_commit(cs.drop_last());
    }
}

/// Every row of the graph marks exactly one cell with `*`: the commit's own lane.
pub proof fn lemma_one_star_per_row(cs: Seq<CommitInfoView>, k: int)
    requires
        0 <= k < cs.len(),
    ensures
        exists|i: int|
            0 <= i < graph_rows(cs)[k].len() && (#[trigger] graph_rows(cs)[k][i]).symbol == '*'
                && forall|j: int| 0 <= j < graph_rows(cs)[k].len() && j != i ==> graph_rows(cs)[k][j].symbol != '*',
    decreases cs.len(),
{
    lemma_one_row_per_commit(cs.drop_last());
    if k < cs.len() - 1 {
        lemma_one_star_per_row(cs.drop_last(), k);
        assert(graph_rows(cs)[k] == graph_rows(cs.drop_last())[k]);
    } else {
        let gs = graph_scan(cs.drop_last());
        let (placed, lane) = place(gs.lanes, cs.last().hash);
        lemma_place_bounds(gs.lanes, cs.last().hash);
        let row = row_cells(placed, lane);
        assert(graph_rows(cs)[k] == row);
        assert(row[lane].symbol == '*');
    }
}

/// A linear history: each commit's only parent is the next commit in the
/// list, and the last commit is a root.
pub open spec fn is_linear(cs: Seq<CommitInfoView>) -> bool {
    &&& forall|k: int| 0 <= k < cs.len() - 1 ==> (#[trigger] cs[k]).parent_hashes == seq![cs[k + 1].hash]
    &&& cs.len() > 0 ==> cs.last().parent_hashes.len() == 0
}

pub open spec fn single_star() -> Seq<GraphCell> {
    seq![GraphCell { symbol: '*', color_index: 0 }]
}

proof fn lemma_linear_prefix(cs: Seq<CommitInfoView>, k: int)
    requires
        is_linear(cs),
        1 <= k <= cs.len(),
    ensures
        graph_rows(cs.take(k)) == Seq::new(k as nat, |i: int| single_star()),
        k < cs.len() ==> graph_scan(cs.take(k)).lanes == (Lanes {
            lanes: seq![Some(cs[k].hash)],
            colors: seq![0usize],
            next_color: 1,
        }),
        k == cs.len() ==> graph_scan(cs.take(k)).lanes.lanes.len() == 0,
    decreases k,
{
    let c = cs[k - 1];
    assert(cs.take(k).drop_last() =~= cs.take(k - 1));
    assert(cs.take(k).last() == c);
    let prev = graph_scan(cs.take(k - 1));
    if k == 1 {
        assert(cs.take(0) =~= Seq::<CommitInfoView>::empty());
        lemma_first_index_none(prev.lanes.lanes, Some(c.hash));
        lemma_first_index_none(prev.lanes.lanes, None::<Seq<char>>);
    } else {
        lemma_linear_prefix(cs, k - 1);
        lemma_first_index(prev.lanes.lanes, Some(c.hash), 0);
    }
    let (placed, lane) = place(prev.lanes, c.hash);
    assert(lane == 0);
    assert(placed == (Lanes { lanes: seq![Some(c.hash)], colors: seq![0usize], next_color: 1 }));
    assert(row_cells(placed, lane) =~= single_star());
    assert(graph_rows(cs.take(k)) =~= Seq::new(k as nat, |i: int| single_star()));
    let after = after_commit(placed, lane, c);
    if k < cs.len() {
        assert(c.parent_hashes == seq![cs[k].hash]);
        assert(c.parent_hashes.drop_first() =~= Seq::<Seq<char>>::empty());
        let l1 = placed.lanes.update(0, Some(cs[k].hash));
        assert(dedup_lanes(l1) =~= l1);
        assert(strip_trailing(l1, placed.colors) == (l1, placed.colors));
        assert(after.lanes =~= seq![Some(cs[k].hash)]);
    } else {
        assert(c == cs.last());
        let l1 = placed.lanes.update(0, None);
        assert(dedup_lanes(l1) =~= l1);
        assert(l1.drop_last() =~= Seq::<Option<Seq<char>>>::empty());
        assert(strip_trailing(l1.drop_last(), placed.colors.drop_last()).0.len() == 0);
    }
}

/// The graph of a linear history is a single column: every row is one `*`
/// in color 0.
pub proof fn lemma_linear_history(cs: Seq<CommitInfoView>)
    requires
        is_linear(cs),
    ensures
        forall|k: int| 0 <= k < cs.len() ==> #[trigger] graph_rows(cs)[k] == single_star(),
{
    if cs.len() > 0 {
        lemma_linear_prefix(cs, cs.len() as int);
        assert(cs.take(cs.len() as int) =~= cs);
    }
}

/// The lanes just after commit `k` is placed: what the lanes waited for
/// after the commits before it, with `k` given its lane.
pub open spec fn placed_at(cs: Seq<CommitInfoView>, k: int) -> (Lanes, int) {
    place(graph_scan(cs.take(k)).lanes, cs[k].hash)
}

proof fn lemma_row_is_placed_row(cs: Seq<CommitInfoView>, k: int)
    requires
        0 <= k < cs.len(),
    ensures
        graph_rows(cs)[k] == row_cells(placed_at(cs, k).0, placed_at(cs, k).1),
    decreases cs.len(),
{
    lemma_one_row_per_commit(cs.drop_last());
    if k == cs.len() - 1 {
        assert(cs.take(k) =~= cs.drop_last());
    } else {
        lemma_row_is_placed_row(cs.drop_last(), k);
        assert(cs.drop_last().take(k) =~= cs.take(k));
        assert(cs.drop_last()[k] == cs[k]);
        assert(graph_rows(cs)[k] == graph_rows(cs.drop_last())[k]);
    }
}

/// The cells of a row follow the lanes at that commit: one cell per lane;
/// the commit's own lane holds `*` in that lane's color; every other lane
/// holds `|` in its own color exactly when it waits for a commit, and a
/// blank with color 0 when it is free, so a branch line ends where its
/// lane is freed.
pub proof fn lemma_row_cells_follow_lanes(cs: Seq<CommitInfoView>, k: int)
    requires
        0 <= k < cs.len(),
    ensures
        ({
            let (placed, lane) = placed_at(cs, k);
            let row = graph_rows(cs)[k];
            &&& row.len() == placed.lanes.len()
            &&& 0 <= lane < row.len()
            &&& row[lane] == GraphCell { symbol: '*', color_index: placed.colors[lane] }
            &&& forall|i: int|
                0 <= i < row.len() && i != lane ==> {
                    &&& ((#[trigger] row[i]).symbol == ' ' <==> placed.lanes[i] is None)
                    &&& (row[i].symbol == ' ' ==> row[i].color_index == 0)
                    &&& (placed.lanes[i] is Some ==> row[i] == GraphCell { symbol: '|', color_index: placed.colors[i] })
                }
        }),
{
    lemma_row_is_placed_row(cs, k);
    lemma_place_bounds(graph_scan(cs.take(k)).lanes, cs[k].hash);
}

/// A lane of the newest commit's row as the working tree's row above it
/// shows it: a line where the lane is in use, blank where it is free.
pub open spec fn carried(c: GraphCell) -> GraphCell {
    if c.symbol != ' ' {
        GraphCell { symbol: '|', color_index: c.color_index }
    } else {
        GraphCell { symbol: ' ', color_index: 0 }
    }
}

/// The graph cells of the working tree's row, above the newest commit's row
/// `first`: with changes, a `*` in the first lane and the other lanes
/// carried; without, every lane carried.
pub open spec fn uncommitted_cells(first: Option<Seq<GraphCell>>, has_changes: bool) -> Seq<GraphCell> {
    let star = GraphCell { symbol: '*', color_index: 0 };
    match first {
        Some(cells) => if has_changes {
            seq![star] + (if cells.len() > 0 { cells.skip(1) } else { cells }).map_values(|c: GraphCell| carried(c))
        } else {
            cells.map_values(|c: GraphCell| carried(c))
        },
        None => if has_changes { seq![star] } else { seq![] },
    }
}

fn carried_exec(c: GraphCell) -> (r: GraphCell)
    ensures
        r == carried(c),
{
    if c.symbol != ' ' {
        GraphCell { symbol: '|', color_index: c.color_index }
    } else {
        GraphCell { symbol: ' ', color_index: 0 }
    }
}

pub fn uncommitted_row(first: Option<&GraphRow>, has_changes: bool) -> (r: Vec<GraphCell>)
    ensures
        r@ == uncommitted_cells(
            match first {
                Some(row) => Some(row@),
                None => None,
            },
            has_changes,
        ),
{
    let mut out: Vec<GraphCell> = Vec::new();
    let star = GraphCell { symbol: '*', color_index: 0 };
    match first {
        Some(row) => {
            let start: usize = if has_changes {
                out.push(star);
                if row.cells.len() > 0 { 1 } else { 0 }
            } else {
                0
            };
            let ghost base = out@;
            let ghost rest = row@.skip(start as int);
            let mut k: usize = start;
            while k < row.cells.len()
                invariant
                    start <= k <= row.cells@.len(),
                    rest == row@.skip(start as int),
                    out@ == base + rest.take(k - start).map_values(|c: GraphCell| carried(c)),
                decreases row.cells.len() - k,
            {
                let c = carried_exec(row.cells[k]);
                out.push(c);
                assert(rest.take(k + 1 - start) =~= rest.take(k - start).push(row.cells@[k as int]));
                assert(rest.take(k + 1 - start).map_values(|c: GraphCell| carried(c)) =~= rest.take(k - start).map_values(
                    |c: GraphCell| carried(c),
                ).push(carried(row.cells@[k as int])));
                k += 1;
            }
            assert(rest.take(row.cells@.len() - start) =~= rest);
            proof {
                if !has_changes {
                    assert(rest =~= row@);
                    assert(base =~= Seq::<GraphCell>::empty());
                    assert(out@ =~= row@.map_values(|c: GraphCell| carried(c)));
                } else if row.cells@.len() == 0 {
                    assert(rest =~= row@);
                    assert(out@ =~= seq![star] + row@.map_values(|c: GraphCell| carried(c)));
                }
            }
        },
        None => {
            if has_changes {
                out.push(star);
                assert(out@ =~= seq![star]);
            } else {
                assert(out@ =~= Seq::<GraphCell>::empty());
            }
        },
    }
    out
}

} // verus!
