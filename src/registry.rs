//! The request registry: for each group name, the texture handles accumulated
//! so far, and the per-tick decision of what to build and what to drop.
use crate::layout::{atlas_grid, atlas_layout, cell_of, grid_of};
use crate::request::{get_unique_name, is_uuid_v4, TilesetLoadEvent, TilesetLoadRequest};
use vstd::prelude::*;

verus! {

/// What a group holds, as the contracts see it.
pub struct PendingGroup<H, T> {
    /// The texture handles with the tile definitions they belong to, in the
    /// order in which they were added.
    pub handles: Seq<(H, T)>,
    /// Whether handles were added since the group was created or last considered.
    pub is_dirty: bool,
    /// The column limit of the last request for the group.
    pub max_columns: Option<usize>,
}

/// One registry entry as the contracts see it: a group name and its group.
pub type GroupEntry<H, T> = (Seq<char>, PendingGroup<H, T>);

/// The texture handles of one group, waiting for their loads to complete.
pub struct TilesetGenerationRequest<H, T> {
    handles: Vec<(H, T)>,
    is_dirty: bool,
    max_columns: Option<usize>,
}

impl<H, T> View for TilesetGenerationRequest<H, T> {
    type V = PendingGroup<H, T>;

    closed spec fn view(&self) -> PendingGroup<H, T> {
        PendingGroup { handles: self.handles@, is_dirty: self.is_dirty, max_columns: self.max_columns }
    }
}

/// The mapping from group names to their pending handles.
pub struct TilesetHandlesMap<H, T> {
    entries: Vec<(String, TilesetGenerationRequest<H, T>)>,
}

pub open spec fn entry_view<H, T>(e: (String, TilesetGenerationRequest<H, T>)) -> GroupEntry<H, T> {
    (e.0@, e.1@)
}

impl<H, T> View for TilesetHandlesMap<H, T> {
    type V = Seq<GroupEntry<H, T>>;

    closed spec fn view(&self) -> Seq<GroupEntry<H, T>> {
        self.entries@.map_values(|e: (String, TilesetGenerationRequest<H, T>)| entry_view(e))
    }
}

/// No two entries share a group name.
pub open spec fn keys_unique<H, T>(s: Seq<GroupEntry<H, T>>) -> bool {
    forall|i: int, j: int|
        0 <= i < s.len() && 0 <= j < s.len() && i != j ==> (#[trigger] s[i]).0 != (#[trigger] s[j]).0
}

pub open spec fn has_key<H, T>(s: Seq<GroupEntry<H, T>>, name: Seq<char>) -> bool {
    exists|i: int| 0 <= i < s.len() && (#[trigger] s[i]).0 == name
}

/// The position of the entry named `name`, where there is one.
pub open spec fn index_of<H, T>(s: Seq<GroupEntry<H, T>>, name: Seq<char>) -> int {
    choose|i: int| 0 <= i < s.len() && (#[trigger] s[i]).0 == name
}

/// The group registered under `name`.
pub open spec fn lookup<H, T>(s: Seq<GroupEntry<H, T>>, name: Seq<char>) -> Option<PendingGroup<H, T>> {
    if has_key(s, name) {
        Some(s[index_of(s, name)].1)
    } else {
        None
    }
}

/// The registry after a load request for `name` has added `tiles`: an
/// existing group grows by them, else a new group holds just them; either way
/// the group is dirty and takes the request's column limit.
pub open spec fn ingested<H, T>(
    s: Seq<GroupEntry<H, T>>,
    name: Seq<char>,
    max_columns: Option<usize>,
    tiles: Seq<(H, T)>,
) -> Seq<GroupEntry<H, T>> {
    if has_key(s, name) {
        let i = index_of(s, name);
        s.update(
            i,
            (name, PendingGroup { handles: s[i].1.handles + tiles, is_dirty: true, max_columns }),
        )
    } else {
        s.push((name, PendingGroup { handles: tiles, is_dirty: true, max_columns }))
    }
}

/// In a registry with unique names, the entry found at `i` is the one `lookup` gives.
pub proof fn lemma_index_unique<H, T>(s: Seq<GroupEntry<H, T>>, i: int)
    requires
        keys_unique(s),
        0 <= i < s.len(),
    ensures
        has_key(s, s[i].0),
        index_of(s, s[i].0) == i,
        lookup(s, s[i].0) == Some(s[i].1),
{
    assert(has_key(s, s[i].0));
}


/// What one tick does with a group.
#[derive(Clone, Copy, Debug, PartialEq, Eq, Structural)]
pub enum BuildDecision {
    /// The group holds no handles: it is dropped.
    DiscardEmpty,
    /// Nothing was added since the group was last considered: it is dropped.
    DiscardUnchanged,
    /// Some texture is still loading: the group stays for a later tick.
    Pending,
    /// Every texture has loaded: the group is built and dropped.
    Build,
}

/// The decision for a group, given whether all of its textures have loaded;
/// the first rule that applies wins.
pub open spec fn decision<H, T>(g: PendingGroup<H, T>, ready: bool) -> BuildDecision {
    if g.handles.len() == 0 {
        BuildDecision::DiscardEmpty
    } else if !g.is_dirty {
        BuildDecision::DiscardUnchanged
    } else if !ready {
        BuildDecision::Pending
    } else {
        BuildDecision::Build
    }
}

/// The readiness given for the entry at `i`; a missing answer counts as not ready.
pub open spec fn ready_at(ready: Seq<bool>, i: int) -> bool {
    0 <= i < ready.len() && ready[i]
}

/// The entries of `s` on which a tick decides `d`, in their order.
pub open spec fn selected<H, T>(
    s: Seq<GroupEntry<H, T>>,
    ready: Seq<bool>,
    d: BuildDecision,
) -> Seq<GroupEntry<H, T>>
    decreases s.len(),
{
    if s.len() == 0 {
        Seq::empty()
    } else {
        let rest = selected(s.drop_last(), ready, d);
        if decision(s.last().1, ready_at(ready, s.len() - 1)) == d {
            rest.push(s.last())
        } else {
            rest
        }
    }
}

/// The entries that stay in the registry after a tick.
pub open spec fn kept<H, T>(s: Seq<GroupEntry<H, T>>, ready: Seq<bool>) -> Seq<GroupEntry<H, T>> {
    selected(s, ready, BuildDecision::Pending)
}

/// The entries that a tick builds.
pub open spec fn built<H, T>(s: Seq<GroupEntry<H, T>>, ready: Seq<bool>) -> Seq<GroupEntry<H, T>> {
    selected(s, ready, BuildDecision::Build)
}

/// What a tick decides for the group `name` of the registry `s`.
pub open spec fn decision_for<H, T>(
    s: Seq<GroupEntry<H, T>>,
    ready: Seq<bool>,
    name: Seq<char>,
) -> BuildDecision {
    decision(s[index_of(s, name)].1, ready_at(ready, index_of(s, name)))
}

/// Dropping the last entry keeps the names unique.
proof fn lemma_drop_last_keys_unique<H, T>(s: Seq<GroupEntry<H, T>>)
    requires
        keys_unique(s),
        s.len() > 0,
    ensures
        keys_unique(s.drop_last()),
{
    let p = s.drop_last();
    assert forall|i: int, j: int|
        0 <= i < p.len() && 0 <= j < p.len() && i != j implies (#[trigger] p[i]).0 != (
        #[trigger] p[j]).0 by {
        assert(s[i] == p[i] && s[j] == p[j]);
    }
}

/// Every entry that a tick selects comes from the registry, and names stay unique.
proof fn lemma_selected_keys<H, T>(s: Seq<GroupEntry<H, T>>, ready: Seq<bool>, d: BuildDecision)
    ensures
        forall|k: int|
            0 <= k < selected(s, ready, d).len() ==> has_key(s, (#[trigger] selected(s, ready, d)[k]).0),
        keys_unique(s) ==> keys_unique(selected(s, ready, d)),
    decreases s.len(),
{
    if s.len() > 0 {
        let p = s.drop_last();
        lemma_selected_keys(p, ready, d);
        let sel = selected(s, ready, d);
        let psel = selected(p, ready, d);
        assert forall|k: int| 0 <= k < sel.len() implies has_key(s, (#[trigger] sel[k]).0) by {
            if k < psel.len() {
                assert(has_key(p, psel[k].0));
                let j = choose|j: int| 0 <= j < p.len() && (#[trigger] p[j]).0 == psel[k].0;
                assert(s[j] == p[j]);
            } else {
                assert(s[s.len() - 1] == s.last());
            }
        }
        if keys_unique(s) {
            lemma_drop_last_keys_unique(s);
            assert forall|k: int| 0 <= k < psel.len() implies (#[trigger] psel[k]).0 != s.last().0 by {
                assert(has_key(p, psel[k].0));
                let j = choose|j: int| 0 <= j < p.len() && (#[trigger] p[j]).0 == psel[k].0;
                assert(s[j] == p[j]);
                assert(s[s.len() - 1] == s.last());
            }
        }
    }
}

/// What a tick does to the group `name`: it stays, unchanged, exactly when
/// the decision for it is `Pending`, and is built exactly when it is `Build`.
pub proof fn lemma_selected_lookup<H, T>(
    s: Seq<GroupEntry<H, T>>,
    ready: Seq<bool>,
    d: BuildDecision,
    name: Seq<char>,
)
    requires
        keys_unique(s),
    ensures
        lookup(selected(s, ready, d), name) == if has_key(s, name) && decision_for(s, ready, name)
            == d {
            lookup(s, name)
        } else {
            None
        },
    decreases s.len(),
{
    if s.len() > 0 {
        let p = s.drop_last();
        let last = s.last();
        lemma_drop_last_keys_unique(s);
        lemma_selected_lookup(p, ready, d, name);
        lemma_selected_keys(s, ready, d);
        lemma_selected_keys(p, ready, d);
        let sel = selected(s, ready, d);
        let psel = selected(p, ready, d);
        assert(s[s.len() - 1] == last);
        lemma_index_unique(s, s.len() - 1);
        if name == last.0 {
            assert(!has_key(p, name)) by {
                if has_key(p, name) {
                    let j = choose|j: int| 0 <= j < p.len() && (#[trigger] p[j]).0 == name;
                    assert(s[j] == p[j]);
                }
            }
            assert(!has_key(psel, name)) by {
                if has_key(psel, name) {
                    let k = choose|k: int| 0 <= k < psel.len() && (#[trigger] psel[k]).0 == name;
                    assert(has_key(p, psel[k].0));
                }
            }
            if decision(last.1, ready_at(ready, s.len() - 1)) == d {
                lemma_index_unique(sel, sel.len() - 1);
            } else {
                assert(sel == psel);
            }
        } else {
            if has_key(p, name) {
                let i = index_of(p, name);
                assert(s[i] == p[i]);
                lemma_index_unique(s, i);
                lemma_index_unique(p, i);
            } else {
                assert(!has_key(s, name)) by {
                    if has_key(s, name) {
                        let j = choose|j: int| 0 <= j < s.len() && (#[trigger] s[j]).0 == name;
                        assert(j != s.len() - 1);
                        assert(s[j] == p[j]);
                    }
                }
            }
            if has_key(psel, name) {
                let k = index_of(psel, name);
                lemma_index_unique(psel, k);
                if decision(last.1, ready_at(ready, s.len() - 1)) == d {
                    assert(sel[k] == psel[k]);
                    lemma_index_unique(sel, k);
                }
            } else {
                assert(!has_key(sel, name)) by {
                    if has_key(sel, name) {
                        let k = choose|k: int| 0 <= k < sel.len() && (#[trigger] sel[k]).0 == name;
                        if k < psel.len() {
                            assert(sel[k] == psel[k]);
                        }
                    }
                }
            }
        }
    }
}

impl<H, T> TilesetGenerationRequest<H, T> {
    /// The number of accumulated handles.
    pub fn len(&self) -> (r: usize)
        ensures
            r == self@.handles.len(),
    {
        self.handles.len()
    }

    /// Whether handles were added since the group was created or last considered.
    pub fn is_dirty(&self) -> (r: bool)
        ensures
            r == self@.is_dirty,
    {
        self.is_dirty
    }

    /// The column limit that the atlas of this group will use.
    pub fn max_columns(&self) -> (r: Option<usize>)
        ensures
            r == self@.max_columns,
    {
        self.max_columns
    }

    /// The handles with their tile definitions, in the order they were added.
    pub fn handles(&self) -> (r: &Vec<(H, T)>)
        ensures
            r@ == self@.handles,
    {
        &self.handles
    }

    /// What a tick does with this group, given whether all of its textures have loaded.
    pub fn decide(&self, ready: bool) -> (r: BuildDecision)
        ensures
            r == decision(self@, ready),
    {
        if self.handles.len() == 0 {
            BuildDecision::DiscardEmpty
        } else if !self.is_dirty {
            BuildDecision::DiscardUnchanged
        } else if !ready {
            BuildDecision::Pending
        } else {
            BuildDecision::Build
        }
    }

    /// Whether every texture of the group has loaded, given `loaded[k]` as the
    /// loader's answer for the `k`-th handle; an answer that is missing counts
    /// as not loaded.
    pub fn is_ready(&self, loaded: &Vec<bool>) -> (r: bool)
        ensures
            r == all_loaded(self@.handles.len(), loaded@),
    {
        if loaded.len() < self.handles.len() {
            return false;
        }
        let mut k: usize = 0;
        while k < self.handles.len()
            invariant
                k <= self.handles@.len() <= loaded@.len(),
                forall|j: int| 0 <= j < k ==> loaded@[j],
            decreases self.handles@.len() - k,
        {
            if !loaded[k] {
                return false;
            }
            k = k + 1;
        }
        true
    }
}

/// All of the first `n` loads have completed.
pub open spec fn all_loaded(n: nat, loaded: Seq<bool>) -> bool {
    n <= loaded.len() && forall|k: int| 0 <= k < n ==> loaded[k]
}


/// A group that is ready to be built into an atlas.
pub struct TilesetBuildJob<H, T> {
    /// The group name.
    pub name: String,
    /// The loaded textures with their tile definitions, in the order they were added.
    pub tiles: Vec<(H, T)>,
    /// The column limit of the atlas.
    pub max_columns: Option<usize>,
}

/// A build job as the contracts see it: the entry it was taken from.
pub open spec fn job_view<H, T>(j: TilesetBuildJob<H, T>) -> GroupEntry<H, T> {
    (j.name@, PendingGroup { handles: j.tiles@, is_dirty: true, max_columns: j.max_columns })
}

impl<H, T> TilesetBuildJob<H, T> {
    /// The atlas cell of each tile, in the order of `tiles`.
    pub fn layout(&self) -> (r: Vec<(usize, usize)>)
        ensures
            r@.len() == self.tiles@.len(),
            forall|i: int|
                0 <= i < r@.len() ==> ((#[trigger] r@[i]).0 as nat, r@[i].1 as nat) == cell_of(
                    i as nat,
                    self.max_columns,
                ),
    {
        atlas_layout(self.tiles.len(), self.max_columns)
    }

    /// The size of the atlas, in cells.
    pub fn grid(&self) -> (r: (usize, usize))
        ensures
            (r.0 as nat, r.1 as nat) == grid_of(self.tiles@.len(), self.max_columns),
    {
        atlas_grid(self.tiles.len(), self.max_columns)
    }

    /// The event that announces the built tileset.
    pub fn loaded_event(&self) -> (r: TilesetLoadEvent)
        ensures
            r matches TilesetLoadEvent::LoadedTileset(n) && n@ == self.name@,
    {
        TilesetLoadEvent::LoadedTileset(self.name.clone())
    }
}

/// The name under which a request's tiles are gathered: its own name, or a
/// fresh unique one where that is empty.
pub fn group_name(request: &TilesetLoadRequest) -> (r: String)
    ensures
        request.name@.len() > 0 ==> r@ == request.name@,
        request.name@.len() == 0 ==> is_uuid_v4(r@),
{
    if request.name.as_str().is_empty() {
        get_unique_name()
    } else {
        request.name.clone()
    }
}

impl<H, T> TilesetHandlesMap<H, T> {
    pub open spec fn wf(&self) -> bool {
        keys_unique(self@)
    }

    /// An empty registry.
    pub fn new() -> (r: Self)
        ensures
            r.wf(),
            r@.len() == 0,
    {
        TilesetHandlesMap { entries: Vec::new() }
    }

    /// The number of groups.
    pub fn len(&self) -> (r: usize)
        ensures
            r == self@.len(),
    {
        self.entries.len()
    }

    /// The group names, in the order of the entries.
    pub fn names(&self) -> (r: Vec<String>)
        ensures
            r@.len() == self@.len(),
            forall|i: int| 0 <= i < r@.len() ==> (#[trigger] r@[i])@ == self@[i].0,
    {
        let mut names: Vec<String> = Vec::new();
        let mut i: usize = 0;
        while i < self.entries.len()
            invariant
                i <= self@.len(),
                names@.len() == i,
                forall|k: int| 0 <= k < i ==> (#[trigger] names@[k])@ == self@[k].0,
            decreases self@.len() - i,
        {
            names.push(self.entries[i].0.clone());
            i = i + 1;
        }
        names
    }

    /// The position of the entry named `name`.
    fn find(&self, name: &String) -> (r: Option<usize>)
        requires
            self.wf(),
        ensures
            r is Some ==> r->0 < self@.len() && r->0 == index_of(self@, name@) && has_key(self@, name@),
            r is None ==> !has_key(self@, name@),
    {
        let mut i: usize = 0;
        while i < self.entries.len()
            invariant
                self.wf(),
                i <= self@.len(),
                forall|k: int| 0 <= k < i ==> (#[trigger] self@[k]).0 != name@,
            decreases self@.len() - i,
        {
            if self.entries[i].0 == *name {
                proof {
                    lemma_index_unique(self@, i as int);
                }
                return Some(i);
            }
            i = i + 1;
        }
        None
    }

    /// The group registered under `name`.
    pub fn get(&self, name: &String) -> (r: Option<&TilesetGenerationRequest<H, T>>)
        requires
            self.wf(),
        ensures
            match r {
                Some(g) => lookup(self@, name@) == Some(g@),
                None => lookup(self@, name@) is None,
            },
    {
        match self.find(name) {
            Some(i) => Some(&self.entries[i].1),
            None => None,
        }
    }

    /// Add the tiles read for `request` to its group (see [`group_name`]),
    /// and return the group name.
    pub fn load_tiles(&mut self, request: &TilesetLoadRequest, tiles: Vec<(H, T)>) -> (r: String)
        requires
            old(self).wf(),
        ensures
            final(self).wf(),
            request.name@.len() > 0 ==> r@ == request.name@,
            request.name@.len() == 0 ==> is_uuid_v4(r@),
            final(self)@ == ingested(old(self)@, r@, request.max_columns, tiles@),
    {
        let name = group_name(request);
        self.ingest(name.clone(), request.max_columns, tiles);
        name
    }

    /// One build pass, given `ready[i]` as whether every texture of the `i`-th
    /// group has loaded (a missing answer counts as not ready). Groups that
    /// are empty or unchanged are dropped, groups still loading stay, and
    /// ready groups are dropped and returned to be built, in registry order.
    pub fn tick(&mut self, ready: &Vec<bool>) -> (jobs: Vec<TilesetBuildJob<H, T>>)
        requires
            old(self).wf(),
        ensures
            final(self).wf(),
            final(self)@ == kept(old(self)@, ready@),
            jobs@.map_values(|j: TilesetBuildJob<H, T>| job_view(j)) == built(old(self)@, ready@),
    {
        let ghost orig = self@;
        let mut rest: Vec<(String, TilesetGenerationRequest<H, T>)> = Vec::new();
        std::mem::swap(&mut rest, &mut self.entries);
        let mut jobs: Vec<TilesetBuildJob<H, T>> = Vec::new();
        let n = rest.len();
        let mut i: usize = 0;
        while i < n
            invariant
                n == orig.len(),
                i <= n,
                rest@.len() == n - i,
                forall|k: int| 0 <= k < n - i ==> entry_view(#[trigger] rest@[k]) == orig[k + i],
                self@ == kept(orig.take(i as int), ready@),
                jobs@.map_values(|j: TilesetBuildJob<H, T>| job_view(j)) == built(
                    orig.take(i as int),
                    ready@,
                ),
            decreases n - i,
        {
            let ghost before = rest@;
            let (name, group) = rest.remove(0);
            let is_ready = i < ready.len() && ready[i];
            let d = group.decide(is_ready);
            proof {
                assert(entry_view((name, group)) == orig[i as int]);
                assert(orig.take(i + 1).drop_last() =~= orig.take(i as int));
                assert(orig.take(i + 1).last() == orig[i as int]);
                assert(forall|k: int| 0 <= k < n - i - 1 ==> #[trigger] rest@[k] == before[k + 1]);
            }
            let ghost prev_self = self@;
            let ghost prev_jobs = jobs@;
            match d {
                BuildDecision::Pending => {
                    self.entries.push((name, group));
                    assert(self@ =~= prev_self.push(orig[i as int]));
                },
                BuildDecision::Build => {
                    jobs.push(TilesetBuildJob { name, tiles: group.handles, max_columns: group.max_columns });
                    assert(jobs@.map_values(|j: TilesetBuildJob<H, T>| job_view(j)) =~= prev_jobs.map_values(
                        |j: TilesetBuildJob<H, T>| job_view(j),
                    ).push(orig[i as int]));
                },
                _ => {},
            }
            i = i + 1;
        }
        proof {
            assert(orig.take(n as int) =~= orig);
            lemma_selected_keys(orig, ready@, BuildDecision::Pending);
        }
        jobs
    }

    /// Add `tiles` to the group `name`, creating it if it is new; the group
    /// becomes dirty and takes `max_columns`.
    pub fn ingest(&mut self, name: String, max_columns: Option<usize>, tiles: Vec<(H, T)>)
        requires
            old(self).wf(),
        ensures
            final(self).wf(),
            final(self)@ == ingested(old(self)@, name@, max_columns, tiles@),
    {
        let ghost added = tiles@;
        let mut tiles = tiles;
        match self.find(&name) {
            Some(i) => {
                let (key, mut group) = self.entries.remove(i);
                group.handles.append(&mut tiles);
                group.is_dirty = true;
                group.max_columns = max_columns;
                self.entries.insert(i, (key, group));
                proof {
                    let s = old(self)@;
                    let g = PendingGroup { handles: s[i as int].1.handles + added, is_dirty: true, max_columns };
                    assert(self@ =~= s.update(i as int, (name@, g)));
                }
            },
            None => {
                let group = TilesetGenerationRequest { handles: tiles, is_dirty: true, max_columns };
                self.entries.push((name, group));
                assert(self@ =~= old(self)@.push(entry_view(self.entries@.last())));
            },
        }
    }
}

/// The group of `name` after a load request: the handles it had before,
/// followed by the new ones, dirty, with the request's column limit; names
/// stay unique.
pub proof fn lemma_ingested_lookup<H, T>(
    s: Seq<GroupEntry<H, T>>,
    name: Seq<char>,
    max_columns: Option<usize>,
    tiles: Seq<(H, T)>,
)
    requires
        keys_unique(s),
    ensures
        keys_unique(ingested(s, name, max_columns, tiles)),
        lookup(ingested(s, name, max_columns, tiles), name) == Some(
            PendingGroup { handles: handles_of(s, name) + tiles, is_dirty: true, max_columns },
        ),
        ingested(s, name, max_columns, tiles).len() == s.len() + if has_key(s, name) {
            0int
        } else {
            1int
        },
{
    let r = ingested(s, name, max_columns, tiles);
    if has_key(s, name) {
        let i = index_of(s, name);
        assert(keys_unique(r)) by {
            assert forall|a: int, b: int|
                0 <= a < r.len() && 0 <= b < r.len() && a != b implies (#[trigger] r[a]).0 != (
                #[trigger] r[b]).0 by {
                if a != i && b != i {
                    assert(r[a] == s[a] && r[b] == s[b]);
                } else if a == i {
                    assert(r[b] == s[b]);
                } else {
                    assert(r[a] == s[a]);
                }
            }
        }
        lemma_index_unique(r, i);
    } else {
        assert(keys_unique(r)) by {
            assert forall|a: int, b: int|
                0 <= a < r.len() && 0 <= b < r.len() && a != b implies (#[trigger] r[a]).0 != (
                #[trigger] r[b]).0 by {
                if a < s.len() && b < s.len() {
                    assert(r[a] == s[a] && r[b] == s[b]);
                } else if a < s.len() {
                    assert(r[a] == s[a]);
                } else {
                    assert(r[b] == s[b]);
                }
            }
        }
        lemma_index_unique(r, s.len() as int);
        assert(handles_of(s, name) =~= Seq::<(H, T)>::empty());
        assert(Seq::<(H, T)>::empty() + tiles =~= tiles);
    }
}

/// The handles registered under `name`; none where there is no such group.
pub open spec fn handles_of<H, T>(s: Seq<GroupEntry<H, T>>, name: Seq<char>) -> Seq<(H, T)> {
    match lookup(s, name) {
        Some(g) => g.handles,
        None => Seq::empty(),
    }
}

/// Two load requests for one group name, before a build, accumulate into a
/// single group that holds the handles of both, in request order: the
/// registry gains at most one entry, and the group's handle count is the sum.
pub proof fn lemma_requests_merge<H, T>(
    s: Seq<GroupEntry<H, T>>,
    name: Seq<char>,
    first_columns: Option<usize>,
    first: Seq<(H, T)>,
    second_columns: Option<usize>,
    second: Seq<(H, T)>,
)
    requires
        keys_unique(s),
    ensures
        ({
            let r = ingested(ingested(s, name, first_columns, first), name, second_columns, second);
            &&& keys_unique(r)
            &&& r.len() == s.len() + if has_key(s, name) {
                0int
            } else {
                1int
            }
            &&& lookup(r, name) == Some(
                PendingGroup {
                    handles: handles_of(s, name) + first + second,
                    is_dirty: true,
                    max_columns: second_columns,
                },
            )
            &&& handles_of(r, name).len() == handles_of(s, name).len() + first.len()
                + second.len()
        }),
{
    let m = ingested(s, name, first_columns, first);
    lemma_ingested_lookup(s, name, first_columns, first);
    lemma_ingested_lookup(m, name, second_columns, second);
    assert(handles_of(s, name) + first + second =~= handles_of(m, name) + second);
}

/// A group without handles is dropped by the next tick and is not built.
pub proof fn lemma_empty_group_dropped<H, T>(
    s: Seq<GroupEntry<H, T>>,
    ready: Seq<bool>,
    name: Seq<char>,
)
    requires
        keys_unique(s),
        has_key(s, name),
        handles_of(s, name).len() == 0,
    ensures
        lookup(kept(s, ready), name) is None,
        lookup(built(s, ready), name) is None,
{
    lemma_selected_lookup(s, ready, BuildDecision::Pending, name);
    lemma_selected_lookup(s, ready, BuildDecision::Build, name);
}

/// A dirty, non-empty group whose textures have not all loaded is not built:
/// it stays in the registry, unchanged, for a later tick.
pub proof fn lemma_pending_group_stays<H, T>(
    s: Seq<GroupEntry<H, T>>,
    ready: Seq<bool>,
    name: Seq<char>,
)
    requires
        keys_unique(s),
        has_key(s, name),
        handles_of(s, name).len() > 0,
        lookup(s, name)->0.is_dirty,
        !ready_at(ready, index_of(s, name)),
    ensures
        lookup(kept(s, ready), name) == lookup(s, name),
        lookup(built(s, ready), name) is None,
{
    lemma_selected_lookup(s, ready, BuildDecision::Pending, name);
    lemma_selected_lookup(s, ready, BuildDecision::Build, name);
}

/// A group is built at most once: once a tick builds it, it has left the
/// registry, and no later tick builds it again or keeps it unless a new
/// load request brings it back.
pub proof fn lemma_built_once<H, T>(
    s: Seq<GroupEntry<H, T>>,
    ready: Seq<bool>,
    later: Seq<bool>,
    name: Seq<char>,
)
    requires
        keys_unique(s),
        has_key(built(s, ready), name),
    ensures
        lookup(kept(s, ready), name) is None,
        lookup(built(kept(s, ready), later), name) is None,
        lookup(kept(kept(s, ready), later), name) is None,
{
    lemma_selected_lookup(s, ready, BuildDecision::Build, name);
    lemma_selected_lookup(s, ready, BuildDecision::Pending, name);
    lemma_selected_keys(s, ready, BuildDecision::Pending);
    let k = kept(s, ready);
    assert(!has_key(k, name));
    lemma_selected_lookup(k, later, BuildDecision::Build, name);
    lemma_selected_lookup(k, later, BuildDecision::Pending, name);
}

} // verus!
