//! Pipelines, one for each frame or tab, and the constellation that holds them.

use std::collections::HashMap;
use vstd::prelude::*;

verus! {

broadcast use vstd::std_specs::hash::group_hash_axioms;

/// A frame or tab.
pub struct Pipeline {
    pub id: u32,
    pub url: String,
    pub title: String,
    pub parent_id: Option<u32>,
    pub child_ids: Vec<u32>,
    pub state: PipelineState,
}

#[derive(Debug, Clone, PartialEq)]
pub enum PipelineState {
    Loading,
    Interactive,
    Complete,
    Error(String),
}

/// How far a pipeline has come.
pub enum Progress {
    Loading,
    Interactive,
    Complete,
    Error(Seq<char>),
}

/// What a pipeline says.
pub struct PipelineView {
    pub id: u32,
    pub url: Seq<char>,
    pub title: Seq<char>,
    pub parent_id: Option<u32>,
    pub child_ids: Seq<u32>,
    pub state: Progress,
}

impl View for PipelineState {
    type V = Progress;

    open spec fn view(&self) -> Progress {
        match self {
            PipelineState::Loading => Progress::Loading,
            PipelineState::Interactive => Progress::Interactive,
            PipelineState::Complete => Progress::Complete,
            PipelineState::Error(s) => Progress::Error(s@),
        }
    }
}

impl View for Pipeline {
    type V = PipelineView;

    open spec fn view(&self) -> PipelineView {
        PipelineView {
            id: self.id,
            url: self.url@,
            title: self.title@,
            parent_id: self.parent_id,
            child_ids: self.child_ids@,
            state: self.state@,
        }
    }
}

impl Pipeline {
    /// Whether the pipeline failed.
    pub fn is_error(&self) -> (r: bool)
        ensures
            r == (self@.state is Error),
    {
        matches!(self.state, PipelineState::Error(_))
    }

    /// Whether the page can be used, if not all of it is there.
    pub fn is_ready(&self) -> (r: bool)
        ensures
            r == (self@.state is Interactive || self@.state is Complete),
    {
        matches!(self.state, PipelineState::Interactive | PipelineState::Complete)
    }
}

/// All pipelines.
pub struct Constellation {
    pipelines: HashMap<u32, Pipeline>,
    next_id: u32,
}

/// A pipeline that starts to load.
pub open spec fn new_pipeline(id: u32, url: Seq<char>, parent_id: Option<u32>) -> PipelineView {
    PipelineView {
        id,
        url,
        title: Seq::empty(),
        parent_id,
        child_ids: Seq::empty(),
        state: Progress::Loading,
    }
}

/// The pipelines with a new one, which its parent, if it is there, has as a child.
pub open spec fn created(
    m: Map<u32, PipelineView>,
    id: u32,
    url: Seq<char>,
    parent_id: Option<u32>,
) -> Map<u32, PipelineView> {
    let grown = m.insert(id, new_pipeline(id, url, parent_id));
    match parent_id {
        Some(p) => if grown.contains_key(p) {
            grown.insert(
                p,
                PipelineView { child_ids: grown[p].child_ids.push(id), ..grown[p] },
            )
        } else {
            grown
        },
        None => grown,
    }
}

/// The parent of a pipeline that is there and has one.
pub open spec fn parent_of(m: Map<u32, PipelineView>, id: u32) -> Option<u32> {
    if m.contains_key(id) {
        m[id].parent_id
    } else {
        None
    }
}

/// The children of a pipeline that is there.
pub open spec fn children(m: Map<u32, PipelineView>, id: u32) -> Seq<u32> {
    if m.contains_key(id) {
        m[id].child_ids
    } else {
        Seq::empty()
    }
}

/// All ids but this one.
pub open spec fn other_than(id: u32) -> spec_fn(u32) -> bool {
    |c: u32| c != id
}

/// The pipelines with `id` taken out of the list of its parent.
pub open spec fn disowned(m: Map<u32, PipelineView>, id: u32) -> Map<u32, PipelineView> {
    match parent_of(m, id) {
        Some(p) => if m.contains_key(p) {
            m.insert(
                p,
                PipelineView { child_ids: m[p].child_ids.filter(other_than(id)), ..m[p] },
            )
        } else {
            m
        },
        None => m,
    }
}

/// Whether `to` is a child of a child and so on of `from`, `n` steps down.
pub open spec fn reaches(m: Map<u32, PipelineView>, from: u32, n: nat, to: u32) -> bool
    decreases n,
{
    if n == 0 {
        from == to
    } else {
        exists|c: u32| #[trigger]
            children(m, from).contains(c) && reaches(m, c, (n - 1) as nat, to)
    }
}

/// Whether `k` is a child of `id`, or a child of such a child, and so on.
pub open spec fn descends(m: Map<u32, PipelineView>, k: u32, id: u32) -> bool {
    exists|n: nat| 0 < n && reaches(m, id, n, k)
}

/// `id` and what descends from it.
pub open spec fn family(m: Map<u32, PipelineView>, id: u32) -> Set<u32> {
    Set::new(|k: u32| k == id || descends(m, k, id))
}

/// The pipelines without `id` and without those that descend from it.
pub open spec fn closed(m: Map<u32, PipelineView>, id: u32) -> Map<u32, PipelineView> {
    disowned(m, id).remove_keys(family(m, id))
}

/// Whether the way up from `id` ends at `top`, after `n` steps.
pub open spec fn climbs(m: Map<u32, PipelineView>, id: u32, n: nat, top: u32) -> bool
    decreases n,
{
    match parent_of(m, id) {
        None => n == 0 && top == id,
        Some(p) => n > 0 && climbs(m, p, (n - 1) as nat, top),
    }
}

/// Whether the way up from `id` ends at `top`.
pub open spec fn leads_to(m: Map<u32, PipelineView>, id: u32, top: u32) -> bool {
    exists|n: nat| climbs(m, id, n, top)
}

/// Whether the way up from `id` ends.
pub open spec fn has_top(m: Map<u32, PipelineView>, id: u32) -> bool {
    exists|n: nat, top: u32| climbs(m, id, n, top)
}

/// Whether every pipeline stands under its id, and the next id is larger.
pub open spec fn numbered(m: Map<u32, PipelineView>, next: u32) -> bool {
    0 < next && forall|id: u32| #[trigger] m.contains_key(id) ==> m[id].id == id && 0 < id < next
}

/// Whether each parent is older than its child.
pub open spec fn parents_older(m: Map<u32, PipelineView>) -> bool {
    forall|id: u32| #[trigger]
        m.contains_key(id) ==> match m[id].parent_id {
            Some(p) => p < id,
            None => true,
        }
}

/// Whether the ids go up.
pub open spec fn ascending(s: Seq<u32>) -> bool {
    forall|i: int, j: int| 0 <= i < j < s.len() ==> s[i] < s[j]
}

/// A child of a pipeline that can be reached can be reached.
proof fn lemma_one_further(m: Map<u32, PipelineView>, from: u32, n: nat, k: u32, c: u32)
    requires
        reaches(m, from, n, k),
        children(m, k).contains(c),
    ensures
        reaches(m, from, n + 1, c),
    decreases n,
{
    if n == 0 {
        assert(reaches(m, c, 0, c));
        assert(children(m, from).contains(c) && reaches(m, c, 0, c));
    } else {
        let next = choose|next: u32| #[trigger]
            children(m, from).contains(next) && reaches(m, next, (n - 1) as nat, k);
        lemma_one_further(m, next, (n - 1) as nat, k, c);
        assert(children(m, from).contains(next) && reaches(m, next, n, c));
    }
}

/// The children of a family belong to it.
proof fn lemma_child_of_family(m: Map<u32, PipelineView>, id: u32, k: u32, c: u32)
    requires
        family(m, id).contains(k),
        children(m, k).contains(c),
    ensures
        family(m, id).contains(c),
{
    let n: nat = if k == id {
        0
    } else {
        choose|n: nat| 0 < n && reaches(m, id, n, k)
    };
    assert(reaches(m, id, n, k));
    lemma_one_further(m, id, n, k, c);
    assert(0 < n + 1 && reaches(m, id, n + 1, c));
}

/// Pipelines that go together with all their children go with all that descend from
/// them.
proof fn lemma_all_gone(m: Map<u32, PipelineView>, gone: Set<u32>, from: u32, n: nat, to: u32)
    requires
        gone.contains(from) || !m.contains_key(from),
        forall|k: u32, c: u32| #[trigger]
            gone.contains(k) && #[trigger] children(m, k).contains(c) && m.contains_key(c)
                ==> gone.contains(c),
        reaches(m, from, n, to),
        m.contains_key(to),
    ensures
        gone.contains(to),
    decreases n,
{
    if n > 0 {
        let c = choose|c: u32| #[trigger]
            children(m, from).contains(c) && reaches(m, c, (n - 1) as nat, to);
        lemma_all_gone(m, gone, c, (n - 1) as nat, to);
    }
}

/// What is still to be closed once a pipeline is gone and its children are known.
proof fn lemma_opened(
    m: Map<u32, PipelineView>,
    id: u32,
    was: Set<u32>,
    k: u32,
    stack: Seq<u32>,
    left: Seq<u32>,
    open: Seq<u32>,
)
    requires
        m.contains_key(k),
        stack == left.push(k),
        open == left + m[k].child_ids,
        forall|j: int| 0 <= j < stack.len() ==> family(m, id).contains(#[trigger] stack[j]),
        forall|a: u32, c: u32| #[trigger]
            was.contains(a) && #[trigger] children(m, a).contains(c) && m.contains_key(c)
                ==> was.contains(c) || stack.contains(c),
        was.contains(id) || stack.contains(id) || !m.contains_key(id),
    ensures
        family(m, id).contains(k),
        forall|j: int| 0 <= j < open.len() ==> family(m, id).contains(#[trigger] open[j]),
        forall|a: u32, c: u32| #[trigger]
            was.insert(k).contains(a) && #[trigger] children(m, a).contains(c) && m.contains_key(c)
                ==> was.insert(k).contains(c) || open.contains(c),
        was.insert(k).contains(id) || open.contains(id) || !m.contains_key(id),
{
    assert(family(m, id).contains(stack[stack.len() - 1]));
    assert forall|j: int| 0 <= j < open.len() implies family(m, id).contains(#[trigger] open[j]) by {
        if j < left.len() {
            assert(family(m, id).contains(stack[j]));
        } else {
            assert(children(m, k)[j - left.len()] == open[j]);
            assert(children(m, k).contains(open[j]));
            lemma_child_of_family(m, id, k, open[j]);
        }
    }
    assert forall|c: u32| stack.contains(c) && c != k implies #[trigger] open.contains(c) by {
        let j = choose|j: int| 0 <= j < stack.len() && stack[j] == c;
        assert(open[j] == c);
    }
    assert forall|a: u32, c: u32| #[trigger]
        was.insert(k).contains(a) && #[trigger] children(m, a).contains(c) && m.contains_key(
            c,
        ) implies was.insert(k).contains(c) || open.contains(c) by {
        if a == k {
            let j = choose|j: int| 0 <= j < m[k].child_ids.len() && m[k].child_ids[j] == c;
            assert(open[left.len() + j] == c);
        } else {
            assert(was.contains(a));
            assert(was.contains(c) || stack.contains(c));
        }
    }
}

/// What is still to be closed once it is clear that a pipeline is not there, or no
/// longer.
proof fn lemma_left(
    m: Map<u32, PipelineView>,
    was: Set<u32>,
    k: u32,
    stack: Seq<u32>,
    open: Seq<u32>,
)
    requires
        !m.contains_key(k) || was.contains(k),
        stack == open.push(k),
    ensures
        forall|c: u32| #[trigger]
            stack.contains(c) && m.contains_key(c) ==> was.contains(c) || open.contains(c),
        forall|j: int| 0 <= j < open.len() ==> open[j] == #[trigger] stack[j],
{
    assert forall|c: u32| #[trigger] stack.contains(c) && m.contains_key(c) implies was.contains(c)
        || open.contains(c) by {
        let j = choose|j: int| 0 <= j < stack.len() && stack[j] == c;
        if j < open.len() {
            assert(open[j] == c);
        }
    }
}

/// The way up from a pipeline leads to one place only.
proof fn lemma_one_way(m: Map<u32, PipelineView>, id: u32, a: nat, x: u32, b: nat, y: u32)
    requires
        climbs(m, id, a, x),
        climbs(m, id, b, y),
    ensures
        a == b,
        x == y,
    decreases a,
{
    if parent_of(m, id) is Some {
        lemma_one_way(
            m,
            parent_of(m, id)->0,
            (a - 1) as nat,
            x,
            (b - 1) as nat,
            y,
        );
    }
}

/// A way up passes each pipeline once, so it is not longer than there are pipelines.
proof fn lemma_way_is_short(m: Map<u32, PipelineView>, id: u32, n: nat, top: u32) -> (s: Set<u32>)
    requires
        m.dom().finite(),
        climbs(m, id, n, top),
    ensures
        s.subset_of(m.dom()),
        s.finite(),
        s.len() == n,
        n <= m.dom().len(),
        forall|x: u32| #[trigger] s.contains(x) ==> exists|k: nat| k <= n && climbs(m, x, k, top),
    decreases n,
{
    if n == 0 {
        Set::empty()
    } else {
        let p = parent_of(m, id)->0;
        let rest = lemma_way_is_short(m, p, (n - 1) as nat, top);
        if rest.contains(id) {
            let k = choose|k: nat| k <= n - 1 && climbs(m, id, k, top);
            lemma_one_way(m, id, n, top, k, top);
        }
        let s = rest.insert(id);
        assert forall|x: u32| #[trigger] s.contains(x) implies exists|k: nat|
            k <= n && climbs(m, x, k, top) by {
            if x == id {
                assert(climbs(m, id, n, top));
            } else {
                let k = choose|k: nat| k <= n - 1 && climbs(m, x, k, top);
                assert(k <= n && climbs(m, x, k, top));
            }
        }
        vstd::set_lib::lemma_len_subset(s, m.dom());
        s
    }
}

/// Puts `x` where it belongs, unless it is there.
fn insert_ascending(v: &mut Vec<u32>, x: u32)
    requires
        ascending(old(v)@),
    ensures
        ascending(final(v)@),
        final(v)@.to_set() == old(v)@.to_set().insert(x),
{
    let mut i: usize = 0;
    while i < v.len() && v[i] < x
        invariant
            i <= v@.len(),
            v@ == old(v)@,
            ascending(v@),
            forall|j: int| 0 <= j < i ==> v@[j] < x,
        decreases v@.len() - i,
    {
        i += 1;
    }
    let ghost before = v@;
    if i < v.len() && v[i] == x {
        proof {
            assert(before.contains(x));
            assert(before.to_set().insert(x) =~= before.to_set());
        }
        return;
    }
    v.insert(i, x);
    proof {
        let after = v@;
        assert(after[i as int] == x);
        assert forall|y: u32| before.to_set().insert(x).contains(y) implies after.to_set().contains(
            y,
        ) by {
            if y != x {
                let k = choose|k: int| 0 <= k < before.len() && before[k] == y;
                assert(after[if k < i {
                    k
                } else {
                    k + 1
                }] == y);
            } else {
                assert(after.contains(x));
            }
        }
        assert forall|y: u32| after.to_set().contains(y) implies before.to_set().insert(
            x,
        ).contains(y) by {
            let k = choose|k: int| 0 <= k < after.len() && after[k] == y;
            if k != i {
                assert(before[if k < i {
                    k
                } else {
                    k - 1
                }] == y);
            }
        }
        assert(after.to_set() =~= before.to_set().insert(x));
    }
}

/// The list without `id`.
fn without(v: &Vec<u32>, id: u32) -> (r: Vec<u32>)
    ensures
        r@ == v@.filter(other_than(id)),
{
    let mut out: Vec<u32> = Vec::new();
    let mut i: usize = 0;
    assert(v@.take(0).filter(other_than(id)) =~= Seq::<u32>::empty()) by {
        reveal(Seq::filter);
    }
    while i < v.len()
        invariant
            i <= v@.len(),
            out@ == v@.take(i as int).filter(other_than(id)),
        decreases v@.len() - i,
    {
        proof {
            reveal(Seq::filter);
            assert(v@.take(i + 1).drop_last() =~= v@.take(i as int));
        }
        if v[i] != id {
            out.push(v[i]);
        }
        i += 1;
    }
    assert(v@.take(i as int) =~= v@);
    out
}

impl Constellation {
    /// The pipelines by their ids.
    pub closed spec fn pipelines(&self) -> Map<u32, PipelineView> {
        self.pipelines@.map_values(|p: Pipeline| p@)
    }

    /// The id of the next pipeline.
    pub closed spec fn next_id(&self) -> u32 {
        self.next_id
    }

    pub open spec fn wf(&self) -> bool {
        numbered(self.pipelines(), self.next_id())
    }

    pub fn new() -> (r: Constellation)
        ensures
            r.pipelines() == Map::<u32, PipelineView>::empty(),
            r.next_id() == 1,
            r.wf(),
            parents_older(r.pipelines()),
    {
        let c = Constellation { pipelines: HashMap::new(), next_id: 1 };
        assert(c.pipelines() =~= Map::<u32, PipelineView>::empty());
        c
    }

    /// Puts a pipeline back under an id.
    fn put(&mut self, id: u32, p: Pipeline)
        ensures
            final(self).pipelines() == old(self).pipelines().insert(id, p@),
            final(self).next_id() == old(self).next_id(),
    {
        self.pipelines.insert(id, p);
        assert(self.pipelines() =~= old(self).pipelines().insert(id, p@));
    }

    /// Takes a pipeline out.
    fn take(&mut self, id: u32) -> (r: Option<Pipeline>)
        ensures
            final(self).pipelines() == old(self).pipelines().remove(id),
            final(self).next_id() == old(self).next_id(),
            match r {
                Some(p) => old(self).pipelines().contains_key(id) && old(self).pipelines()[id]
                    == p@,
                None => !old(self).pipelines().contains_key(id),
            },
    {
        let r = self.pipelines.remove(&id);
        assert(self.pipelines() =~= old(self).pipelines().remove(id));
        r
    }

    /// Whether there is an id for one more pipeline.
    pub fn has_room(&self) -> (r: bool)
        ensures
            r == (self.next_id() < u32::MAX),
    {
        self.next_id < u32::MAX
    }

    /// Starts a pipeline and returns its id.
    pub fn create_pipeline(&mut self, url: &str, parent_id: Option<u32>) -> (r: u32)
        requires
            old(self).next_id() < u32::MAX,
        ensures
            r == old(self).next_id(),
            final(self).next_id() == r + 1,
            final(self).pipelines() == created(old(self).pipelines(), r, url@, parent_id),
            old(self).wf() ==> final(self).wf(),
    {
        let id = self.next_id;
        self.next_id = id + 1;
        assert(self.pipelines() =~= old(self).pipelines());
        let pipeline = Pipeline {
            id,
            url: url.to_string(),
            title: String::new(),
            parent_id,
            child_ids: Vec::new(),
            state: PipelineState::Loading,
        };
        assert(pipeline@.title =~= Seq::empty());
        assert(pipeline@.child_ids =~= Seq::empty());
        self.put(id, pipeline);
        let ghost grown = self.pipelines();
        if let Some(parent) = parent_id {
            if let Some(mut p) = self.take(parent) {
                p.child_ids.push(id);
                self.put(parent, p);
                assert(self.pipelines() =~= grown.insert(parent, p@));
            } else {
                assert(self.pipelines() =~= grown);
            }
        }
        id
    }

    /// Sends a pipeline to another URL, which it starts to load. Tells whether there
    /// is such a pipeline.
    pub fn navigate(&mut self, id: u32, url: &str) -> (r: bool)
        ensures
            r == old(self).pipelines().contains_key(id),
            old(self).wf() ==> final(self).wf(),
            final(self).next_id() == old(self).next_id(),
            final(self).pipelines() == if r {
                old(self).pipelines().insert(
                    id,
                    PipelineView {
                        url: url@,
                        state: Progress::Loading,
                        ..old(self).pipelines()[id]
                    },
                )
            } else {
                old(self).pipelines()
            },
    {
        match self.take(id) {
            Some(mut p) => {
                p.url = url.to_string();
                p.state = PipelineState::Loading;
                self.put(id, p);
                assert(self.pipelines() =~= old(self).pipelines().insert(id, p@));
                true
            },
            None => {
                assert(self.pipelines() =~= old(self).pipelines());
                false
            },
        }
    }

    /// The pipeline with this id.
    pub fn get_pipeline(&self, id: u32) -> (r: Option<&Pipeline>)
        ensures
            match r {
                Some(p) => self.pipelines().contains_key(id) && self.pipelines()[id] == p@,
                None => !self.pipelines().contains_key(id),
            },
    {
        self.pipelines.get(&id)
    }

    /// Sets the state of a pipeline. Tells whether there is such a pipeline.
    pub fn set_state(&mut self, id: u32, state: PipelineState) -> (r: bool)
        ensures
            r == old(self).pipelines().contains_key(id),
            old(self).wf() ==> final(self).wf(),
            final(self).next_id() == old(self).next_id(),
            final(self).pipelines() == if r {
                old(self).pipelines().insert(
                    id,
                    PipelineView { state: state@, ..old(self).pipelines()[id] },
                )
            } else {
                old(self).pipelines()
            },
    {
        match self.take(id) {
            Some(mut p) => {
                p.state = state;
                self.put(id, p);
                assert(self.pipelines() =~= old(self).pipelines().insert(id, p@));
                true
            },
            None => {
                assert(self.pipelines() =~= old(self).pipelines());
                false
            },
        }
    }

    /// Sets the title of a pipeline. Tells whether there is such a pipeline.
    pub fn set_title(&mut self, id: u32, title: &str) -> (r: bool)
        ensures
            r == old(self).pipelines().contains_key(id),
            old(self).wf() ==> final(self).wf(),
            final(self).next_id() == old(self).next_id(),
            final(self).pipelines() == if r {
                old(self).pipelines().insert(
                    id,
                    PipelineView { title: title@, ..old(self).pipelines()[id] },
                )
            } else {
                old(self).pipelines()
            },
    {
        match self.take(id) {
            Some(mut p) => {
                p.title = title.to_string();
                self.put(id, p);
                assert(self.pipelines() =~= old(self).pipelines().insert(id, p@));
                true
            },
            None => {
                assert(self.pipelines() =~= old(self).pipelines());
                false
            },
        }
    }

    /// The ids of all pipelines in the order of their creation, which is that of the
    /// ids.
    pub fn list_pipelines(&self) -> (r: Vec<u32>)
        ensures
            ascending(r@),
            r@.to_set() == self.pipelines().dom(),
    {
        let mut out: Vec<u32> = Vec::new();
        assert(out@.to_set() =~= Set::<u32>::empty());
        for k in it: self.pipelines.keys()
            invariant
                ascending(out@),
                it.seq().unref().to_set() == self.pipelines@.dom(),
                out@.to_set() == it.seq().unref().take(it.index()).to_set(),
                it.index() == it.seq().len() ==> out@.to_set() == self.pipelines@.dom(),
        {
            let ghost all = it.seq().unref();
            let ghost i = it.index();
            proof {
                assert(all.take(i + 1) =~= all.take(i).push(*k));
                all.take(i).lemma_push_to_set_commute(*k);
                assert(it.index() + 1 == it.seq().len() ==> all.take(i + 1) =~= all);
            }
            insert_ascending(&mut out, *k);
        }
        assert(out@.to_set() =~= self.pipelines().dom());
        out
    }

    /// The children of a pipeline, none where it is not there.
    pub fn children_of(&self, parent_id: u32) -> (r: Vec<u32>)
        ensures
            r@ == children(self.pipelines(), parent_id),
    {
        match self.pipelines.get(&parent_id) {
            Some(p) => {
                let r = p.child_ids.clone();
                assert(r@ =~= p.child_ids@);
                r
            },
            None => Vec::new(),
        }
    }

    /// The parent of a pipeline that is there and has one.
    fn parent(&self, id: u32) -> (r: Option<u32>)
        ensures
            r == parent_of(self.pipelines(), id),
    {
        match self.pipelines.get(&id) {
            Some(p) => p.parent_id,
            None => None,
        }
    }

    /// The pipeline at which the way up from `id` ends, which is the last parent that
    /// is named, whether it is still there or not.
    pub fn root_of(&self, id: u32) -> (r: Option<u32>)
        requires
            has_top(self.pipelines(), id),
        ensures
            r is Some,
            leads_to(self.pipelines(), id, r->0),
    {
        let ghost m = self.pipelines();
        let ghost (n, top) = choose|n: nat, top: u32| climbs(m, id, n, top);
        let mut current = id;
        let ghost mut left: nat = n;
        loop
            invariant
                m == self.pipelines(),
                climbs(m, id, n, top),
                climbs(m, current, left, top),
            decreases left,
        {
            match self.parent(current) {
                Some(p) => {
                    current = p;
                    proof {
                        left = (left - 1) as nat;
                    }
                },
                None => {
                    assert(current == top);
                    assert(leads_to(self.pipelines(), id, top));
                    return Some(current);
                },
            }
        }
    }

    /// Whether the way up from `id` ends, as it does where no pipeline is among its
    /// own parents.
    pub fn has_root(&self, id: u32) -> (r: bool)
        ensures
            r == has_top(self.pipelines(), id),
    {
        let ghost m = self.pipelines();
        let count: usize = self.len();
        let mut current = id;
        let mut steps: usize = 0;
        loop
            invariant
                m == self.pipelines(),
                m.dom().finite(),
                count == m.dom().len(),
                steps <= count,
                forall|n: nat, top: u32|
                    #![trigger climbs(m, id, n, top)]
                    climbs(m, id, n, top) ==> n >= steps && climbs(
                        m,
                        current,
                        (n - steps) as nat,
                        top,
                    ),
                forall|n: nat, top: u32| #[trigger]
                    climbs(m, current, n, top) ==> climbs(m, id, (n + steps) as nat, top),
            decreases count - steps,
        {
            match self.parent(current) {
                Some(p) => {
                    if steps == count {
                        proof {
                            if has_top(m, id) {
                                let (n, top) = choose|n: nat, top: u32| climbs(m, id, n, top);
                                lemma_way_is_short(m, id, n, top);
                                assert(climbs(m, current, (n - steps) as nat, top));
                            }
                        }
                        return false;
                    }
                    proof {
                        assert forall|n: nat, top: u32|
                            #![trigger climbs(m, id, n, top)]
                            climbs(m, id, n, top) implies n >= steps + 1 && climbs(
                            m,
                            p,
                            (n - (steps + 1)) as nat,
                            top,
                        ) by {
                            assert(climbs(m, current, (n - steps) as nat, top));
                        }
                        assert forall|n: nat, top: u32| #[trigger]
                            climbs(m, p, n, top) implies climbs(m, id, (n + (steps + 1)) as nat, top) by {
                            assert(climbs(m, current, n + 1, top));
                            assert(n + 1 + steps == n + (steps + 1));
                        }
                    }
                    current = p;
                    steps += 1;
                },
                None => {
                    proof {
                        assert(climbs(m, current, 0, current));
                        assert(climbs(m, id, (0 + steps) as nat, current));
                    }
                    return true;
                },
            }
        }
    }

    /// Removes a pipeline and all that descend from it, and takes it out of the list of
    /// its parent.
    pub fn close_pipeline(&mut self, id: u32)
        ensures
            final(self).pipelines() == closed(old(self).pipelines(), id),
            forall|k: u32| #[trigger]
                final(self).pipelines().contains_key(k) <==> old(self).pipelines().contains_key(k)
                    && k != id && !descends(old(self).pipelines(), k, id),
            final(self).next_id() == old(self).next_id(),
            old(self).wf() ==> final(self).wf(),
    {
        let ghost m = self.pipelines();
        let parent = self.parent(id);
        assert(m.dom() =~= self.pipelines@.dom());
        let mut open: Vec<u32> = Vec::new();
        open.push(id);
        let ghost mut gone: Set<u32> = Set::empty();
        assert(m.remove_keys(gone) =~= m);
        assert(open@[0] == id);
        while open.len() > 0
            invariant
                self.next_id() == old(self).next_id(),
                self.pipelines() == m.remove_keys(gone),
                self.pipelines().dom().finite(),
                gone.subset_of(family(m, id)),
                forall|j: int| 0 <= j < open@.len() ==> family(m, id).contains(#[trigger] open@[j]),
                forall|k: u32, c: u32| #[trigger]
                    gone.contains(k) && #[trigger] children(m, k).contains(c) && m.contains_key(c)
                        ==> gone.contains(c) || open@.contains(c),
                gone.contains(id) || open@.contains(id) || !m.contains_key(id),
            decreases self.pipelines().dom().len(), open@.len(),
        {
            let ghost before = *self;
            let ghost stack = open@;
            let ghost was = gone;
            let k = match open.pop() {
                Some(k) => k,
                None => 0,
            };
            assert(stack =~= open@.push(k));
            assert(stack[stack.len() - 1] == k);
            match self.take(k) {
                Some(p) => {
                    let ghost left = open@;
                    let mut i: usize = 0;
                    while i < p.child_ids.len()
                        invariant
                            i <= p.child_ids@.len(),
                            open@ == left + p.child_ids@.take(i as int),
                        decreases p.child_ids@.len() - i,
                    {
                        open.push(p.child_ids[i]);
                        i += 1;
                        assert(open@ =~= left + p.child_ids@.take(i as int));
                    }
                    proof {
                        assert(p.child_ids@.take(i as int) =~= p.child_ids@);
                        gone = gone.insert(k);
                        assert(self.pipelines() =~= m.remove_keys(gone));
                        assert(self.pipelines().dom() =~= before.pipelines().dom().remove(k));
                        lemma_opened(m, id, was, k, stack, left, open@);
                    }
                },
                None => {
                    proof {
                        assert(self.pipelines() =~= before.pipelines());
                        lemma_left(m, was, k, stack, open@);
                    }
                },
            }
        }
        proof {
            assert forall|k: u32| #[trigger] m.contains_key(k) && family(m, id).contains(k) implies
                gone.contains(k) by {
                let n: nat = if k == id {
                    0
                } else {
                    choose|n: nat| 0 < n && reaches(m, id, n, k)
                };
                assert(reaches(m, id, n, k));
                lemma_all_gone(m, gone, id, n, k);
            }
            assert(self.pipelines() =~= m.remove_keys(family(m, id)));
        }
        let ghost rest = self.pipelines();
        if let Some(parent) = parent {
            if let Some(mut p) = self.take(parent) {
                let kept = without(&p.child_ids, id);
                p.child_ids = kept;
                self.put(parent, p);
                assert(self.pipelines() =~= rest.insert(parent, p@));
            } else {
                assert(self.pipelines() =~= rest);
            }
        }
        assert(self.pipelines() =~= closed(m, id));
    }

    /// The number of pipelines.
    pub fn len(&self) -> (r: usize)
        ensures
            r == self.pipelines().dom().len(),
            self.pipelines().dom().finite(),
    {
        let r = self.pipelines.len();
        assert(self.pipelines().dom() =~= self.pipelines@.dom());
        r
    }
}

impl Default for Constellation {
    fn default() -> (r: Constellation)
        ensures
            r.pipelines() == Map::<u32, PipelineView>::empty(),
            r.next_id() == 1,
            r.wf(),
    {
        Constellation::new()
    }
}

/// A new pipeline is a child of its parent, everything else is as it was, and the ids
/// stay those of their pipelines.
pub proof fn law_created_is_child(
    m: Map<u32, PipelineView>,
    id: u32,
    url: Seq<char>,
    parent_id: Option<u32>,
    other: u32,
)
    requires
        numbered(m, id),
        id < u32::MAX,
    ensures
        parent_of(created(m, id, url, parent_id), id) == parent_id,
        created(m, id, url, parent_id).dom() == m.dom().insert(id),
        numbered(created(m, id, url, parent_id), (id + 1) as u32),
        parent_id matches Some(p) ==> m.contains_key(p) ==> children(
            created(m, id, url, parent_id),
            p,
        ) == children(m, p).push(id),
        other != id && Some(other) != parent_id && m.contains_key(other) ==> created(
            m,
            id,
            url,
            parent_id,
        )[other] == m[other],
{
    assert(created(m, id, url, parent_id).dom() =~= m.dom().insert(id));
}

/// Where each parent is older than its child, a pipeline whose parent is there keeps
/// it so.
pub proof fn law_parents_stay_older(
    m: Map<u32, PipelineView>,
    id: u32,
    url: Seq<char>,
    parent_id: Option<u32>,
    gone: u32,
)
    requires
        numbered(m, id),
        parents_older(m),
        parent_id matches Some(p) ==> m.contains_key(p),
    ensures
        parents_older(created(m, id, url, parent_id)),
        parents_older(closed(m, gone)),
        numbered(closed(m, gone), id),
{
}

/// Where each parent is older than its child, the way up from every pipeline ends.
pub proof fn law_every_way_up_ends(m: Map<u32, PipelineView>, id: u32)
    requires
        parents_older(m),
    ensures
        has_top(m, id),
    decreases id,
{
    match parent_of(m, id) {
        None => {
            assert(climbs(m, id, 0, id));
        },
        Some(p) => {
            assert(m.contains_key(id));
            law_every_way_up_ends(m, p);
            let (n, top) = choose|n: nat, top: u32| climbs(m, p, n, top);
            assert(climbs(m, id, n + 1, top));
        },
    }
}

/// The root of a pipeline is unique, and it is that of its parent.
pub proof fn law_root_is_that_of_parent(m: Map<u32, PipelineView>, id: u32, top: u32, other: u32)
    requires
        leads_to(m, id, top),
    ensures
        leads_to(m, id, other) ==> other == top,
        match parent_of(m, id) {
            Some(p) => leads_to(m, p, top),
            None => top == id,
        },
{
    let n = choose|n: nat| climbs(m, id, n, top);
    if leads_to(m, id, other) {
        let k = choose|k: nat| climbs(m, id, k, other);
        lemma_one_way(m, id, n, top, k, other);
    }
    if parent_of(m, id) is Some {
        assert(climbs(m, parent_of(m, id)->0, (n - 1) as nat, top));
    }
}

/// Children descend from their parent, and so do theirs.
pub proof fn law_descent_goes_on(m: Map<u32, PipelineView>, id: u32, k: u32, c: u32)
    requires
        children(m, k).contains(c),
    ensures
        k == id || descends(m, k, id) ==> descends(m, c, id),
{
    if k == id || descends(m, k, id) {
        let n: nat = if k == id {
            0
        } else {
            choose|n: nat| 0 < n && reaches(m, id, n, k)
        };
        assert(reaches(m, id, n, k));
        lemma_one_further(m, id, n, k, c);
        assert(0 < n + 1 && reaches(m, id, n + 1, c));
    }
}

/// Closing removes the pipeline and all that descend from it, and nothing else. What
/// stays is as it was, but that the parent no longer has the pipeline as a child.
pub proof fn law_close_removes_descendants(m: Map<u32, PipelineView>, id: u32, other: u32)
    ensures
        closed(m, id).contains_key(other) <==> m.contains_key(other) && other != id && !descends(
            m,
            other,
            id,
        ),
        closed(m, id).contains_key(other) ==> {
            &&& parent_of(m, id) != Some(other) ==> closed(m, id)[other] == m[other]
            &&& parent_of(m, id) == Some(other) ==> closed(m, id)[other] == (PipelineView {
                child_ids: m[other].child_ids.filter(other_than(id)),
                ..m[other]
            })
        },
        !closed(m, id).contains_key(other) || !closed(m, id)[other].child_ids.contains(id)
            || parent_of(m, id) != Some(other),
{
    if closed(m, id).contains_key(other) && closed(m, id)[other].child_ids.contains(id)
        && parent_of(m, id) == Some(other) {
        let kept = m[other].child_ids.filter(other_than(id));
        let k = choose|k: int| 0 <= k < kept.len() && kept[k] == id;
        assert(other_than(id)(kept[k]));
    }
}

/// A new pipeline starts to load its URL. It has the parent that was given, no title, and
/// no child but itself where it is its own parent.
pub proof fn law_created_starts_to_load(
    m: Map<u32, PipelineView>,
    id: u32,
    url: Seq<char>,
    parent_id: Option<u32>,
)
    ensures
        created(m, id, url, parent_id).contains_key(id),
        created(m, id, url, parent_id)[id].id == id,
        created(m, id, url, parent_id)[id].state == Progress::Loading,
        created(m, id, url, parent_id)[id].url == url,
        created(m, id, url, parent_id)[id].title == Seq::<char>::empty(),
        created(m, id, url, parent_id)[id].parent_id == parent_id,
        parent_id != Some(id) ==> created(m, id, url, parent_id)[id].child_ids
            == Seq::<u32>::empty(),
        parent_id == Some(id) ==> created(m, id, url, parent_id)[id].child_ids == seq![id],
{
    assert(Seq::<u32>::empty().push(id) =~= seq![id]);
}

/// The parent of a new pipeline gets one child more, behind the others, and stays as it
/// was otherwise.
pub proof fn law_parent_gets_one_child(
    m: Map<u32, PipelineView>,
    id: u32,
    url: Seq<char>,
    parent: u32,
)
    requires
        m.contains_key(parent),
        parent != id,
    ensures
        created(m, id, url, Some(parent))[parent].child_ids == m[parent].child_ids.push(id),
        created(m, id, url, Some(parent))[parent].id == m[parent].id,
        created(m, id, url, Some(parent))[parent].url == m[parent].url,
        created(m, id, url, Some(parent))[parent].title == m[parent].title,
        created(m, id, url, Some(parent))[parent].parent_id == m[parent].parent_id,
        created(m, id, url, Some(parent))[parent].state == m[parent].state,
{
}

/// A pipeline that is closed leaves the list of its parent: the children before and behind
/// it stay, in their order.
pub proof fn law_closed_leaves_its_parent(
    m: Map<u32, PipelineView>,
    id: u32,
    parent: u32,
    front: Seq<u32>,
    behind: Seq<u32>,
)
    requires
        m.contains_key(id),
        m[id].parent_id == Some(parent),
        m.contains_key(parent),
        parent != id,
        !descends(m, parent, id),
        m[parent].child_ids == front + seq![id] + behind,
        !front.contains(id),
        !behind.contains(id),
    ensures
        closed(m, id).contains_key(parent),
        closed(m, id)[parent].child_ids == front + behind,
        closed(m, id)[parent].id == m[parent].id,
        closed(m, id)[parent].url == m[parent].url,
        closed(m, id)[parent].title == m[parent].title,
        closed(m, id)[parent].parent_id == m[parent].parent_id,
        closed(m, id)[parent].state == m[parent].state,
{
    let others = other_than(id);
    lemma_keep_others(front, id);
    lemma_keep_others(behind, id);
    Seq::filter_distributes_over_add(front, seq![id], others);
    Seq::filter_distributes_over_add(front + seq![id], behind, others);
    assert(seq![id].filter(others) =~= Seq::<u32>::empty()) by {
        reveal(Seq::filter);
        let one = seq![id];
        assert(one.drop_last() =~= Seq::<u32>::empty());
        assert(one.drop_last().filter(others) =~= Seq::<u32>::empty());
        assert(one.last() == id);
    }
    assert(front + Seq::<u32>::empty() + behind =~= front + behind);
}

/// A list without an id keeps all its members when that id is taken out.
proof fn lemma_keep_others(s: Seq<u32>, id: u32)
    requires
        !s.contains(id),
    ensures
        s.filter(other_than(id)) == s,
    decreases s.len(),
{
    reveal(Seq::filter);
    if s.len() > 0 {
        assert(s.contains(s.last()));
        let front = s.drop_last();
        assert forall|i: int| 0 <= i < front.len() implies front[i] != id by {
            assert(s.contains(s[i]));
        }
        lemma_keep_others(front, id);
        assert(front.push(s.last()) =~= s);
    }
}

/// What descends from a pipeline is a child of it, or of something that descends from it.
pub proof fn law_descendants_have_parents(m: Map<u32, PipelineView>, id: u32, k: u32)
    requires
        descends(m, k, id),
    ensures
        exists|p: u32|
            (p == id || descends(m, p, id)) && m.contains_key(p) && #[trigger] m[p].child_ids.contains(
                k,
            ),
{
    let n = choose|n: nat| 0 < n && reaches(m, id, n, k);
    let p = lemma_last_step(m, id, n, k);
    assert(p == id || descends(m, p, id)) by {
        if n == 1 {
            assert(reaches(m, id, 0, p));
        } else {
            assert(0 < (n - 1) as nat && reaches(m, id, (n - 1) as nat, p));
        }
    }
    assert(m[p].child_ids.contains(k));
}

/// The last of the steps down.
proof fn lemma_last_step(m: Map<u32, PipelineView>, from: u32, n: nat, k: u32) -> (p: u32)
    requires
        0 < n,
        reaches(m, from, n, k),
    ensures
        reaches(m, from, (n - 1) as nat, p),
        children(m, p).contains(k),
    decreases n,
{
    let c = choose|c: u32| #[trigger]
        children(m, from).contains(c) && reaches(m, c, (n - 1) as nat, k);
    if n == 1 {
        assert(c == k);
        assert(reaches(m, from, 0, from));
        from
    } else {
        let p = lemma_last_step(m, c, (n - 1) as nat, k);
        assert(children(m, from).contains(c) && reaches(m, c, (n - 2) as nat, p));
        p
    }
}

/// The children of a pipeline are those in its list, and one that is not there has none;
/// the same holds of its parent.
pub proof fn law_family_as_listed(m: Map<u32, PipelineView>, id: u32)
    ensures
        m.contains_key(id) ==> children(m, id) == m[id].child_ids && parent_of(m, id)
            == m[id].parent_id,
        !m.contains_key(id) ==> children(m, id) == Seq::<u32>::empty() && parent_of(m, id) is None,
{
}

/// The root of a pipeline has no parent, and a pipeline without a parent is its own root.
pub proof fn law_root_has_no_parent(m: Map<u32, PipelineView>, id: u32, top: u32)
    ensures
        leads_to(m, id, top) ==> !m.contains_key(top) || m[top].parent_id is None,
        !m.contains_key(id) || m[id].parent_id is None ==> (leads_to(m, id, top) <==> top == id),
{
    if leads_to(m, id, top) {
        let n = choose|n: nat| climbs(m, id, n, top);
        lemma_top_has_no_parent(m, id, n, top);
    }
    assert(parent_of(m, id) is None ==> climbs(m, id, 0, id));
}

proof fn lemma_top_has_no_parent(m: Map<u32, PipelineView>, id: u32, n: nat, top: u32)
    requires
        climbs(m, id, n, top),
    ensures
        parent_of(m, top) is None,
    decreases n,
{
    if let Some(p) = parent_of(m, id) {
        lemma_top_has_no_parent(m, p, (n - 1) as nat, top);
    }
}

/// What a pipeline says is what it holds.
pub proof fn law_pipeline_says_what_it_holds(p: Pipeline)
    ensures
        p@.id == p.id,
        p@.url == p.url@,
        p@.title == p.title@,
        p@.parent_id == p.parent_id,
        p@.child_ids == p.child_ids@,
        match p.state {
            PipelineState::Loading => p@.state == Progress::Loading,
            PipelineState::Interactive => p@.state == Progress::Interactive,
            PipelineState::Complete => p@.state == Progress::Complete,
            PipelineState::Error(s) => p@.state == Progress::Error(s@),
        },
{
}

/// Ids that go up stand in the order of their size, each once.
pub proof fn law_ids_listed_in_order(s: Seq<u32>, i: int, j: int)
    requires
        ascending(s),
        0 <= i < j < s.len(),
    ensures
        s[i] < s[j],
{
}

/// The way up from a pipeline ends where it has a root, and it is that of its parent.
pub proof fn law_way_up_ends_at_the_root(m: Map<u32, PipelineView>, id: u32, top: u32)
    ensures
        has_top(m, id) <==> exists|t: u32| leads_to(m, id, t),
        m.contains_key(id) && m[id].parent_id is Some ==> (leads_to(m, id, top) <==> leads_to(
            m,
            m[id].parent_id->0,
            top,
        )),
{
    if has_top(m, id) {
        let (n, t) = choose|n: nat, t: u32| climbs(m, id, n, t);
        assert(leads_to(m, id, t));
    }
    if exists|t: u32| leads_to(m, id, t) {
        let t = choose|t: u32| leads_to(m, id, t);
        let n = choose|n: nat| climbs(m, id, n, t);
        assert(climbs(m, id, n, t));
    }
    if m.contains_key(id) && m[id].parent_id is Some {
        let p = m[id].parent_id->0;
        if leads_to(m, id, top) {
            let n = choose|n: nat| climbs(m, id, n, top);
            assert(climbs(m, p, (n - 1) as nat, top));
        }
        if leads_to(m, p, top) {
            let n = choose|n: nat| climbs(m, p, n, top);
            assert(climbs(m, id, n + 1, top));
        }
    }
}

} // verus!
