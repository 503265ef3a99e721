//! The cue-point registry: scheduled instants with tolerance margins,
//! queried and evaluated against a reported playback position.
use vstd::prelude::*;
use vstd::hash_map::StringHashMap;

verus! {

/// Early tolerance of a cue that sets none, in milliseconds.
pub const DEFAULT_NEGATIVE_MARGIN: i32 = 100;

/// Late tolerance of a cue that sets none, in milliseconds.
pub const DEFAULT_POSITIVE_MARGIN: i32 = 0;

/// A scheduled instant. `timestopass` counts down once per evaluation; the
/// cue may fire only while it is at most zero.
pub struct Cuepoint {
    pub id: String,
    pub ms: i32,
    pub timestopass: i32,
    pub negativemargin: Option<i32>,
    pub positivemargin: Option<i32>,
    pub once: bool,
}

/// The abstract value of a `Cuepoint`.
pub struct CuepointView {
    pub id: Seq<char>,
    pub ms: i32,
    pub timestopass: i32,
    pub negativemargin: Option<i32>,
    pub positivemargin: Option<i32>,
    pub once: bool,
}

impl View for Cuepoint {
    type V = CuepointView;

    open spec fn view(&self) -> CuepointView {
        CuepointView {
            id: self.id@,
            ms: self.ms,
            timestopass: self.timestopass,
            negativemargin: self.negativemargin,
            positivemargin: self.positivemargin,
            once: self.once,
        }
    }
}

/// Why the registry refused a cue.
#[derive(Debug, Clone, Copy, PartialEq, Eq, Structural)]
pub enum CuepointError {
    DuplicateId,
}

pub open spec fn negative_margin(c: CuepointView) -> int {
    match c.negativemargin {
        Some(m) => m as int,
        None => DEFAULT_NEGATIVE_MARGIN as int,
    }
}

pub open spec fn positive_margin(c: CuepointView) -> int {
    match c.positivemargin {
        Some(m) => m as int,
        None => DEFAULT_POSITIVE_MARGIN as int,
    }
}

/// Whether `ms` lies in the margin window of `c`, both ends included.
pub open spec fn in_window(c: CuepointView, ms: int) -> bool {
    c.ms - negative_margin(c) <= ms <= c.ms + positive_margin(c)
}

/// Whether `c` fires when the registry is evaluated at `ms`.
pub open spec fn fires(c: CuepointView, ms: int) -> bool {
    in_window(c, ms) && c.timestopass <= 0
}

/// The cues of `s` whose window holds `ms`, in order.
pub open spec fn window_cues(s: Seq<CuepointView>, ms: int) -> Seq<CuepointView>
    decreases s.len(),
{
    if s.len() == 0 {
        s
    } else {
        let rest = window_cues(s.drop_last(), ms);
        if in_window(s.last(), ms) {
            rest.push(s.last())
        } else {
            rest
        }
    }
}

/// The cues of `s` that fire at `ms`, in order.
pub open spec fn fired_cues(s: Seq<CuepointView>, ms: int) -> Seq<CuepointView>
    decreases s.len(),
{
    if s.len() == 0 {
        s
    } else {
        let rest = fired_cues(s.drop_last(), ms);
        if fires(s.last(), ms) {
            rest.push(s.last())
        } else {
            rest
        }
    }
}

/// `c` after one evaluation: its countdown lowered by one, held at the
/// least `i32`.
pub open spec fn decayed(c: CuepointView) -> CuepointView {
    CuepointView {
        timestopass: if c.timestopass > i32::MIN {
            (c.timestopass - 1) as i32
        } else {
            c.timestopass
        },
        ..c
    }
}

/// The registry after an evaluation at `ms`: the once-only cues that fired
/// are gone, and every other cue has decayed.
pub open spec fn evaluated(s: Seq<CuepointView>, ms: int) -> Seq<CuepointView>
    decreases s.len(),
{
    if s.len() == 0 {
        s
    } else {
        let rest = evaluated(s.drop_last(), ms);
        if fires(s.last(), ms) && s.last().once {
            rest
        } else {
            rest.push(decayed(s.last()))
        }
    }
}

/// Whether one of `ids` reads `k`.
pub open spec fn listed(ids: Seq<String>, k: Seq<char>) -> bool {
    exists|i: int| 0 <= i < ids.len() && ids[i]@ == k
}

/// The cues of `s` whose id is not among `ids`, in order.
pub open spec fn without_ids(s: Seq<CuepointView>, ids: Seq<String>) -> Seq<CuepointView>
    decreases s.len(),
{
    if s.len() == 0 {
        s
    } else {
        let rest = without_ids(s.drop_last(), ids);
        if listed(ids, s.last().id) {
            rest
        } else {
            rest.push(s.last())
        }
    }
}

/// Whether some cue of `s` has the id `k`.
pub open spec fn has_id(s: Seq<CuepointView>, k: Seq<char>) -> bool {
    exists|i: int| 0 <= i < s.len() && s[i].id == k
}

/// Whether no two cues of `s` share an id.
pub open spec fn unique_ids(s: Seq<CuepointView>) -> bool {
    forall|i: int, j: int| 0 <= i < s.len() && 0 <= j < s.len() && i != j ==> s[i].id != s[j].id
}

/// The cue of `s` with id `k`, the last one if several share it.
pub open spec fn lookup(s: Seq<CuepointView>, k: Seq<char>) -> Option<CuepointView>
    decreases s.len(),
{
    if s.len() == 0 {
        None
    } else if s.last().id == k {
        Some(s.last())
    } else {
        lookup(s.drop_last(), k)
    }
}

proof fn lemma_unique_drop_last(s: Seq<CuepointView>)
    requires
        s.len() > 0,
        unique_ids(s),
    ensures
        unique_ids(s.drop_last()),
        lookup(s.drop_last(), s.last().id) is None,
{
    lemma_lookup_none(s.drop_last(), s.last().id);
    assert forall|i: int| 0 <= i < s.drop_last().len() implies s.drop_last()[i].id != s.last().id by {
        assert(s.drop_last()[i] == s[i]);
    }
}

proof fn lemma_lookup_none(s: Seq<CuepointView>, k: Seq<char>)
    ensures
        (forall|i: int| 0 <= i < s.len() ==> (#[trigger] s[i]).id != k) ==> lookup(s, k) is None,
    decreases s.len(),
{
    if s.len() > 0 {
        if forall|i: int| 0 <= i < s.len() ==> (#[trigger] s[i]).id != k {
            assert forall|i: int| 0 <= i < s.drop_last().len() implies (
            #[trigger] s.drop_last()[i]).id != k by {
                assert(s.drop_last()[i] == s[i]);
            }
            assert(s[s.len() - 1].id != k);
        }
        lemma_lookup_none(s.drop_last(), k);
    }
}

/// With distinct ids, looking up the id of a cue finds that cue.
pub proof fn lemma_lookup_finds(s: Seq<CuepointView>, i: int)
    requires
        unique_ids(s),
        0 <= i < s.len(),
    ensures
        lookup(s, s[i].id) == Some(s[i]),
    decreases s.len(),
{
    if i < s.len() - 1 {
        lemma_unique_drop_last(s);
        assert(s[i] == s.drop_last()[i]);
        assert(s.last().id != s[i].id);
        lemma_lookup_finds(s.drop_last(), i);
    }
}

/// An evaluation keeps each cue's id apart from the others, drops a cue
/// exactly when it fires and is once-only, and decays the others.
pub proof fn lemma_evaluated_lookup(s: Seq<CuepointView>, ms: int, k: Seq<char>)
    requires
        unique_ids(s),
    ensures
        unique_ids(evaluated(s, ms)),
        lookup(evaluated(s, ms), k) == (match lookup(s, k) {
            Some(c) => if fires(c, ms) && c.once {
                None
            } else {
                Some(decayed(c))
            },
            None => None,
        }),
        forall|j: int| #![auto] 0 <= j < evaluated(s, ms).len() ==> has_id(s, evaluated(s, ms)[j].id),
    decreases s.len(),
{
    if s.len() > 0 {
        lemma_unique_drop_last(s);
        lemma_evaluated_lookup(s.drop_last(), ms, k);
        lemma_evaluated_lookup(s.drop_last(), ms, s.last().id);
        let rest = evaluated(s.drop_last(), ms);
        assert forall|j: int| #![auto] 0 <= j < rest.len() implies has_id(s, rest[j].id) by {
            let w = choose|w: int| 0 <= w < s.drop_last().len() && s.drop_last()[w].id == rest[j].id;
            assert(s[w] == s.drop_last()[w]);
        }
        if !(fires(s.last(), ms) && s.last().once) {
            let e = rest.push(decayed(s.last()));
            assert(e.drop_last() =~= rest);
            assert(lookup(rest, s.last().id) is None);
            assert forall|a: int, b: int|
                0 <= a < e.len() && 0 <= b < e.len() && a != b implies e[a].id != e[b].id by {
                if a == e.len() - 1 && b < rest.len() {
                    lemma_lookup_finds(rest, b);
                } else if b == e.len() - 1 && a < rest.len() {
                    lemma_lookup_finds(rest, a);
                }
            }
            assert(has_id(s, s[s.len() - 1].id));
        }
    }
}

/// A query at `ms` keeps exactly the cues whose window holds `ms`.
pub proof fn lemma_window_lookup(s: Seq<CuepointView>, ms: int, k: Seq<char>)
    requires
        unique_ids(s),
    ensures
        lookup(window_cues(s, ms), k) == (match lookup(s, k) {
            Some(c) => if in_window(c, ms) {
                Some(c)
            } else {
                None
            },
            None => None,
        }),
    decreases s.len(),
{
    if s.len() > 0 {
        lemma_unique_drop_last(s);
        lemma_window_lookup(s.drop_last(), ms, k);
        let rest = window_cues(s.drop_last(), ms);
        assert(rest.push(s.last()).drop_last() =~= rest);
    }
}

/// A cue is returned by a query at `ms` exactly when it is in the registry
/// and `ms` lies in its window, both ends included.
pub proof fn lemma_window_membership(s: Seq<CuepointView>, ms: int)
    ensures
        forall|c: CuepointView| #[trigger]
            window_cues(s, ms).contains(c) <==> s.contains(c) && in_window(c, ms),
    decreases s.len(),
{
    if s.len() > 0 {
        lemma_window_membership(s.drop_last(), ms);
        let rest = window_cues(s.drop_last(), ms);
        assert forall|c: CuepointView| #[trigger]
            window_cues(s, ms).contains(c) <==> s.contains(c) && in_window(c, ms) by {
            if s.contains(c) && in_window(c, ms) {
                let i = choose|i: int| 0 <= i < s.len() && s[i] == c;
                if i < s.len() - 1 {
                    assert(s.drop_last()[i] == c);
                    assert(s.drop_last().contains(c));
                    assert(window_cues(s.drop_last(), ms).contains(c));
                    let j = choose|j: int| 0 <= j < rest.len() && rest[j] == c;
                    if in_window(s.last(), ms) {
                        assert(rest.push(s.last())[j] == c);
                    }
                } else {
                    assert(rest.push(s.last())[rest.len() as int] == c);
                }
            }
            if window_cues(s, ms).contains(c) {
                let j = choose|j: int| 0 <= j < window_cues(s, ms).len() && window_cues(s, ms)[j] == c;
                if j < rest.len() {
                    if in_window(s.last(), ms) {
                        assert(rest.push(s.last())[j] == rest[j]);
                    }
                    assert(rest.contains(c));
                    let w = choose|w: int| 0 <= w < s.drop_last().len() && s.drop_last()[w] == c;
                    assert(s[w] == c);
                } else {
                    assert(s[s.len() - 1] == c);
                }
            }
        }
    }
}

/// Once a once-only cue has fired, no later query returns it, whatever the
/// time asked for.
pub proof fn lemma_fired_once_cue_gone(s: Seq<CuepointView>, fired_at: int, i: int, ms: int)
    requires
        unique_ids(s),
        0 <= i < s.len(),
        fires(s[i], fired_at),
        s[i].once,
    ensures
        !has_id(window_cues(evaluated(s, fired_at), ms), s[i].id),
{
    let e = evaluated(s, fired_at);
    lemma_lookup_finds(s, i);
    lemma_evaluated_lookup(s, fired_at, s[i].id);
    lemma_window_lookup(e, ms, s[i].id);
    lemma_window_membership(e, ms);
    let w = window_cues(e, ms);
    if has_id(w, s[i].id) {
        let j = choose|j: int| 0 <= j < w.len() && w[j].id == s[i].id;
        assert(w.contains(w[j]));
        let x = choose|x: int| 0 <= x < e.len() && e[x] == w[j];
        lemma_lookup_finds(e, x);
    }
}

/// A cue that an evaluation does not fire stays, and its countdown drops by
/// exactly one (it is held only at the least `i32`), whether or not other
/// cues fired.
pub proof fn lemma_countdown_decays(s: Seq<CuepointView>, ms: int, i: int)
    requires
        unique_ids(s),
        0 <= i < s.len(),
        !in_window(s[i], ms),
        s[i].timestopass > i32::MIN,
    ensures
        lookup(evaluated(s, ms), s[i].id) matches Some(c) && c.timestopass == s[i].timestopass - 1
            && c == (CuepointView { timestopass: c.timestopass, ..s[i] }),
{
    lemma_lookup_finds(s, i);
    lemma_evaluated_lookup(s, ms, s[i].id);
}

impl Cuepoint {
    /// A copy of this cue.
    pub fn copy(&self) -> (r: Cuepoint)
        ensures
            r@ == self@,
    {
        Cuepoint {
            id: self.id.clone(),
            ms: self.ms,
            timestopass: self.timestopass,
            negativemargin: self.negativemargin,
            positivemargin: self.positivemargin,
            once: self.once,
        }
    }

    /// Whether `ms` lies in this cue's window.
    pub fn contains_time(&self, ms: i32) -> (r: bool)
        ensures
            r == in_window(self@, ms as int),
    {
        let neg: i64 = match self.negativemargin {
            Some(m) => m as i64,
            None => DEFAULT_NEGATIVE_MARGIN as i64,
        };
        let pos: i64 = match self.positivemargin {
            Some(m) => m as i64,
            None => DEFAULT_POSITIVE_MARGIN as i64,
        };
        let t = self.ms as i64;
        let m = ms as i64;
        t - neg <= m && m <= t + pos
    }
}

/// Whether one of `ids` equals `id`.
fn is_listed(ids: &Vec<String>, id: &String) -> (r: bool)
    ensures
        r == listed(ids@, id@),
{
    let mut i: usize = 0;
    while i < ids.len()
        invariant
            i <= ids.len(),
            forall|j: int| 0 <= j < i ==> (#[trigger] ids@[j])@ != id@,
        decreases ids.len() - i,
    {
        if ids[i] == *id {
            return true;
        }
        i = i + 1;
    }
    false
}

/// `index` maps the id of each kept cue to its position and nothing else,
/// and each kept id stood before `bound` in the registry that `oldpos`
/// indexes.
spec fn rebuilt(
    kept: Seq<Cuepoint>,
    index: Map<Seq<char>, usize>,
    oldpos: Map<Seq<char>, usize>,
    bound: int,
) -> bool {
    &&& forall|a: int|
        0 <= a < kept.len() ==> {
            let k = (#[trigger] kept[a]).id@;
            &&& index.contains_key(k)
            &&& index[k] == a
            &&& oldpos.contains_key(k)
            &&& oldpos[k] < bound
        }
    &&& forall|k: Seq<char>| #[trigger]
        index.contains_key(k) ==> index[k] < kept.len() && kept[index[k] as int].id@ == k
}

proof fn lemma_rebuilt_widen(
    kept: Seq<Cuepoint>,
    index: Map<Seq<char>, usize>,
    oldpos: Map<Seq<char>, usize>,
    bound: int,
)
    requires
        rebuilt(kept, index, oldpos, bound),
    ensures
        rebuilt(kept, index, oldpos, bound + 1),
{
    assert forall|a: int| 0 <= a < kept.len() implies {
        let k = (#[trigger] kept[a]).id@;
        &&& index.contains_key(k)
        &&& index[k] == a
        &&& oldpos.contains_key(k)
        &&& oldpos[k] < bound + 1
    } by {
        let k = kept[a].id@;
        assert(oldpos[k] < bound);
    }
}

/// Appends `c`, which stood at position `at` of the old registry, to the
/// kept cues and to their index.
fn keep_cue(
    kept: &mut Vec<Cuepoint>,
    index: &mut StringHashMap<usize>,
    c: Cuepoint,
    oldpos: Ghost<Map<Seq<char>, usize>>,
    at: Ghost<int>,
)
    requires
        rebuilt(old(kept)@, old(index)@, oldpos@, at@),
        oldpos@.contains_key(c.id@),
        oldpos@[c.id@] == at@,
    ensures
        final(kept)@ == old(kept)@.push(c),
        rebuilt(final(kept)@, final(index)@, oldpos@, at@ + 1),
{
    if index.contains_key(c.id.as_str()) {
        let ghost a = index@[c.id@] as int;
        assert(oldpos@[kept@[a].id@] < at@);
        assert(false);
    }
    let key = c.id.clone();
    let ghost old_index = index@;
    let ghost old_kept = kept@;
    let ghost cid = c.id@;
    kept.push(c);
    index.insert(key, (kept.len() - 1) as usize);
    assert forall|a: int| 0 <= a < kept.len() implies {
        let k = (#[trigger] kept@[a]).id@;
        &&& index@.contains_key(k)
        &&& index@[k] == a
        &&& oldpos@.contains_key(k)
        &&& oldpos@[k] < at@ + 1
    } by {
        if a < kept.len() - 1 {
            assert(old_kept[a] == kept@[a]);
            assert(old_index.contains_key(old_kept[a].id@));
        } else {
            assert(kept@[a].id@ == cid);
        }
    }
}

/// An ordered set of cue points with distinct ids, and an index from id to
/// position.
pub struct Cuepoints {
    cuepoints: Vec<Cuepoint>,
    positions: StringHashMap<usize>,
}

impl View for Cuepoints {
    type V = Seq<CuepointView>;

    closed spec fn view(&self) -> Seq<CuepointView> {
        self.cuepoints@.map_values(|c: Cuepoint| c@)
    }
}

impl Cuepoints {
    /// The index maps each id to the position of its cue, and nothing else.
    pub closed spec fn wf(&self) -> bool {
        &&& forall|i: int|
            0 <= i < self.cuepoints.len() ==> #[trigger] self.positions@.contains_key(
                self.cuepoints@[i].id@,
            ) && self.positions@[self.cuepoints@[i].id@] == i
        &&& forall|k: Seq<char>| #[trigger]
            self.positions@.contains_key(k) ==> self.positions@[k] < self.cuepoints.len()
                && self.cuepoints@[self.positions@[k] as int].id@ == k
    }

    /// Ids in a well-formed registry are distinct.
    pub proof fn lemma_unique_ids(&self)
        requires
            self.wf(),
        ensures
            unique_ids(self@),
    {
        assert forall|i: int, j: int|
            0 <= i < self@.len() && 0 <= j < self@.len() && i != j implies self@[i].id
            != self@[j].id by {
            assert(self.positions@.contains_key(self.cuepoints@[i].id@));
            assert(self.positions@.contains_key(self.cuepoints@[j].id@));
        }
    }

    /// An empty registry.
    pub fn new() -> (r: Cuepoints)
        ensures
            r.wf(),
            r@ == Seq::<CuepointView>::empty(),
    {
        let r = Cuepoints { cuepoints: Vec::new(), positions: StringHashMap::new() };
        assert(r@ =~= Seq::<CuepointView>::empty());
        r
    }

    /// The number of cues.
    pub fn len(&self) -> (r: usize)
        ensures
            r == self@.len(),
    {
        self.cuepoints.len()
    }

    /// Whether a cue has the id `id`.
    pub fn contains_id(&self, id: &str) -> (r: bool)
        requires
            self.wf(),
        ensures
            r == has_id(self@, id@),
    {
        let r = self.positions.contains_key(id);
        if r {
            let ghost p = self.positions@[id@] as int;
            assert(self@[p].id == id@);
        } else {
            assert forall|i: int| 0 <= i < self@.len() implies self@[i].id != id@ by {
                assert(self.positions@.contains_key(self.cuepoints@[i].id@));
            }
        }
        r
    }

    /// Inserts a cue at the end, its countdown reset to zero, and returns its
    /// position; a cue whose id is taken is refused and nothing changes.
    pub fn add_cuepoint(&mut self, cuepoint: Cuepoint) -> (r: Result<usize, CuepointError>)
        requires
            old(self).wf(),
        ensures
            final(self).wf(),
            has_id(old(self)@, cuepoint.id@) ==> r == Err::<usize, CuepointError>(
                CuepointError::DuplicateId,
            ) && final(self)@ == old(self)@,
            !has_id(old(self)@, cuepoint.id@) ==> r == Ok::<usize, CuepointError>(
                old(self)@.len() as usize,
            ) && final(self)@ == old(self)@.push(
                CuepointView { timestopass: 0, ..cuepoint@ },
            ),
    {
        if self.contains_id(cuepoint.id.as_str()) {
            return Err(CuepointError::DuplicateId);
        }
        let mut cuepoint = cuepoint;
        cuepoint.timestopass = 0;
        let pos = self.cuepoints.len();
        let key = cuepoint.id.clone();
        let ghost old_cues = self.cuepoints@;
        let ghost old_pos = self.positions@;
        self.cuepoints.push(cuepoint);
        self.positions.insert(key, pos);
        assert forall|i: int| 0 <= i < self.cuepoints.len() implies #[trigger] self.positions@.contains_key(
            self.cuepoints@[i].id@,
        ) && self.positions@[self.cuepoints@[i].id@] == i by {
            if i < pos {
                assert(old(self)@[i].id == old_cues[i].id@);
                assert(old_cues[i].id@ != key@);
                assert(old_pos.contains_key(old_cues[i].id@));
            }
        }
        assert(self@ =~= old(self)@.push(CuepointView { timestopass: 0, ..cuepoint@ }));
        Ok(pos)
    }

    /// The cues whose window holds `ms`, in registry order. Nothing changes.
    pub fn get_cuepoints_by_time(&self, ms: i32) -> (r: Vec<&Cuepoint>)
        ensures
            r@.map_values(|c: &Cuepoint| c@) == window_cues(self@, ms as int),
    {
        let mut found: Vec<&Cuepoint> = Vec::new();
        let mut i: usize = 0;
        while i < self.cuepoints.len()
            invariant
                i <= self.cuepoints.len(),
                found@.map_values(|c: &Cuepoint| c@) == window_cues(
                    self@.subrange(0, i as int),
                    ms as int,
                ),
            decreases self.cuepoints.len() - i,
        {
            let cue = &self.cuepoints[i];
            assert(self@.subrange(0, i + 1).drop_last() =~= self@.subrange(0, i as int));
            assert(self@.subrange(0, i + 1).last() == cue@);
            if cue.contains_time(ms) {
                found.push(cue);
            }
            assert(found@.map_values(|c: &Cuepoint| c@) =~= window_cues(
                self@.subrange(0, i + 1),
                ms as int,
            ));
            i = i + 1;
        }
        assert(self@.subrange(0, self@.len() as int) =~= self@);
        found
    }

    /// One evaluation at `ms`: returns the cues that fire (in window, with
    /// the countdown at most zero), in order and as they were; drops the
    /// once-only cues among them; lowers every remaining countdown by one.
    pub fn check_cuepoints(&mut self, ms: i32) -> (r: Vec<Cuepoint>)
        requires
            old(self).wf(),
        ensures
            final(self).wf(),
            r@.map_values(|c: Cuepoint| c@) == fired_cues(old(self)@, ms as int),
            final(self)@ == evaluated(old(self)@, ms as int),
    {
        let ghost oldv = self@;
        let ghost oldpos = self.positions@;
        let mut kept: Vec<Cuepoint> = Vec::new();
        let mut fired: Vec<Cuepoint> = Vec::new();
        let mut index: StringHashMap<usize> = StringHashMap::new();
        let mut i: usize = 0;
        while i < self.cuepoints.len()
            invariant
                self.wf(),
                oldv == self@,
                oldpos == self.positions@,
                i <= self.cuepoints.len(),
                kept@.map_values(|c: Cuepoint| c@) == evaluated(
                    oldv.subrange(0, i as int),
                    ms as int,
                ),
                fired@.map_values(|c: Cuepoint| c@) == fired_cues(
                    oldv.subrange(0, i as int),
                    ms as int,
                ),
                rebuilt(kept@, index@, oldpos, i as int),
            decreases self.cuepoints.len() - i,
        {
            let cue = &self.cuepoints[i];
            let ghost pre = oldv.subrange(0, i as int);
            assert(oldv.subrange(0, i + 1).drop_last() =~= pre);
            assert(oldv.subrange(0, i + 1).last() == cue@);
            let fire = cue.timestopass <= 0 && cue.contains_time(ms);
            if fire {
                fired.push(cue.copy());
            }
            if !(fire && cue.once) {
                let mut c = cue.copy();
                if c.timestopass > i32::MIN {
                    c.timestopass = c.timestopass - 1;
                }
                assert(self.positions@.contains_key(self.cuepoints@[i as int].id@));
                keep_cue(&mut kept, &mut index, c, Ghost(oldpos), Ghost(i as int));
            } else {
                proof {
                    lemma_rebuilt_widen(kept@, index@, oldpos, i as int);
                }
            }
            assert(kept@.map_values(|c: Cuepoint| c@) =~= evaluated(
                oldv.subrange(0, i + 1),
                ms as int,
            ));
            assert(fired@.map_values(|c: Cuepoint| c@) =~= fired_cues(
                oldv.subrange(0, i + 1),
                ms as int,
            ));
            i = i + 1;
        }
        assert(oldv.subrange(0, oldv.len() as int) =~= oldv);
        self.cuepoints = kept;
        self.positions = index;
        fired
    }

    /// Deletes every cue whose id is among `ids`; the others keep their order.
    pub fn remove_cuepoint(&mut self, ids: &Vec<String>)
        requires
            old(self).wf(),
        ensures
            final(self).wf(),
            final(self)@ == without_ids(old(self)@, ids@),
    {
        let ghost oldv = self@;
        let ghost oldpos = self.positions@;
        let mut kept: Vec<Cuepoint> = Vec::new();
        let mut index: StringHashMap<usize> = StringHashMap::new();
        let mut i: usize = 0;
        while i < self.cuepoints.len()
            invariant
                self.wf(),
                oldv == self@,
                oldpos == self.positions@,
                i <= self.cuepoints.len(),
                kept@.map_values(|c: Cuepoint| c@) == without_ids(
                    oldv.subrange(0, i as int),
                    ids@,
                ),
                rebuilt(kept@, index@, oldpos, i as int),
            decreases self.cuepoints.len() - i,
        {
            let cue = &self.cuepoints[i];
            let ghost pre = oldv.subrange(0, i as int);
            assert(oldv.subrange(0, i + 1).drop_last() =~= pre);
            assert(oldv.subrange(0, i + 1).last() == cue@);
            if !is_listed(ids, &cue.id) {
                let c = cue.copy();
                assert(self.positions@.contains_key(self.cuepoints@[i as int].id@));
                keep_cue(&mut kept, &mut index, c, Ghost(oldpos), Ghost(i as int));
            } else {
                proof {
                    lemma_rebuilt_widen(kept@, index@, oldpos, i as int);
                }
            }
            assert(kept@.map_values(|c: Cuepoint| c@) =~= without_ids(
                oldv.subrange(0, i + 1),
                ids@,
            ));
            i = i + 1;
        }
        assert(oldv.subrange(0, oldv.len() as int) =~= oldv);
        self.cuepoints = kept;
        self.positions = index;
    }
}

} // verus!
