//! Watched plugin calls: a builder that checks their parameters, and the
//! table of calls in progress that a periodic check reports on when one
//! runs too long.
use vstd::arithmetic::div_mod::{
    lemma_add_mod_noop_right, lemma_mod_bound, lemma_mod_self_0, lemma_small_mod,
};
use vstd::prelude::*;

use crate::builder::{BuilderError, BuilderErrorKind};
use crate::const_values::LONG_WAIT_THREAD_SECS;
use crate::path::{FsPath, PathView};

verus! {

/// Whether the watched thread still runs.
#[allow(non_camel_case_types)]
#[derive(Debug, Clone, Copy, PartialEq, Eq, Structural)]
pub enum ThreadState {
    ALIVE,
    DEAD,
}

/// A watched plugin call, as a value.
pub struct ObserverView {
    pub tid: u64,
    pub dll: PathView,
    pub method: Seq<char>,
    pub count_threshold: u32,
    pub count: u32,
    pub state: ThreadState,
}

/// A plugin call in progress on a thread: which thread, which plugin file,
/// which method, and how many seconds of silence count as a hang.
#[derive(Debug)]
pub struct ThreadObserver {
    threadid: u64,
    dll: FsPath,
    count_threshold: u32,
    count: u32,
    method: &'static str,
    state: ThreadState,
}

impl View for ThreadObserver {
    type V = ObserverView;

    closed spec fn view(&self) -> ObserverView {
        ObserverView {
            tid: self.threadid,
            dll: self.dll@,
            method: self.method@,
            count_threshold: self.count_threshold,
            count: self.count,
            state: self.state,
        }
    }
}

/// The parameters a builder has collected so far.
pub struct BuilderView {
    pub tid: Option<u64>,
    pub dll: Option<PathView>,
    pub method: Seq<char>,
    pub count_threshold: u32,
}

/// What a fresh builder holds: nothing but the default threshold.
pub open spec fn fresh_builder() -> BuilderView {
    BuilderView {
        tid: None,
        dll: None,
        method: Seq::empty(),
        count_threshold: LONG_WAIT_THREAD_SECS,
    }
}

/// A builder can build when it knows the thread, the plugin file and a
/// non-empty method name.
pub open spec fn builder_complete(b: BuilderView) -> bool {
    &&& b.tid is Some
    &&& b.dll is Some
    &&& b.method.len() > 0
}

/// The watched call that a complete builder builds: nothing counted yet,
/// the thread alive.
pub open spec fn built_observer(b: BuilderView) -> ObserverView {
    ObserverView {
        tid: b.tid->0,
        dll: b.dll->0,
        method: b.method,
        count_threshold: b.count_threshold,
        count: 0,
        state: ThreadState::ALIVE,
    }
}

/// Collects the parameters of a watched plugin call.
pub struct ThreadObserverBuilder {
    tid: Option<u64>,
    dll: Option<FsPath>,
    method: &'static str,
    count_threshold: u32,
}

impl View for ThreadObserverBuilder {
    type V = BuilderView;

    closed spec fn view(&self) -> BuilderView {
        BuilderView {
            tid: self.tid,
            dll: match self.dll {
                Some(p) => Some(p@),
                None => None,
            },
            method: self.method@,
            count_threshold: self.count_threshold,
        }
    }
}

impl ThreadObserver {
    /// A builder for a watched call.
    pub fn new() -> (r: ThreadObserverBuilder)
        ensures
            r@ == fresh_builder(),
    {
        ThreadObserverBuilder::new()
    }

    pub fn get_tid(&self) -> (r: u64)
        ensures
            r == self@.tid,
    {
        self.threadid
    }

    pub fn get_dll(&self) -> (r: FsPath)
        ensures
            r@ == self@.dll,
    {
        self.dll.clone()
    }

    pub fn get_method(&self) -> (r: &'static str)
        ensures
            r@ == self@.method,
    {
        self.method
    }

    pub fn get_state(&self) -> (r: ThreadState)
        ensures
            r == self@.state,
    {
        self.state
    }

    /// Seconds counted since the call started or was last reported.
    pub fn get_count(&self) -> (r: u32)
        ensures
            r == self@.count,
    {
        self.count
    }

    /// Seconds of silence after which the call is reported.
    pub fn get_threshold(&self) -> (r: u32)
        ensures
            r == self@.count_threshold,
    {
        self.count_threshold
    }
}

impl ThreadObserverBuilder {
    pub fn new() -> (r: Self)
        ensures
            r@ == fresh_builder(),
    {
        let r = ThreadObserverBuilder {
            tid: None,
            dll: None,
            method: "",
            count_threshold: LONG_WAIT_THREAD_SECS,
        };
        proof {
            reveal_strlit("");
        }
        assert(r@.method =~= Seq::<char>::empty());
        r
    }

    pub fn tid(self, id: u64) -> (r: Self)
        ensures
            r@ == (BuilderView { tid: Some(id), ..self@ }),
    {
        let mut b = self;
        b.tid = Some(id);
        b
    }

    pub fn dll(self, path: FsPath) -> (r: Self)
        ensures
            r@ == (BuilderView { dll: Some(path@), ..self@ }),
    {
        let mut b = self;
        b.dll = Some(path);
        b
    }

    pub fn method(self, method: &'static str) -> (r: Self)
        ensures
            r@ == (BuilderView { method: method@, ..self@ }),
    {
        let mut b = self;
        b.method = method;
        b
    }

    /// Sets the number of seconds without an answer after which the call
    /// counts as hanging.
    pub fn noresponse_threshold(self, sec: u32) -> (r: Self)
        ensures
            r@ == (BuilderView { count_threshold: sec, ..self@ }),
    {
        let mut b = self;
        b.count_threshold = sec;
        b
    }

    /// The watched call, when the thread, the plugin file and a non-empty
    /// method name are all known; an invalid-parameter error otherwise.
    pub fn build(self) -> (r: Result<ThreadObserver, BuilderError>)
        ensures
            r is Ok <==> builder_complete(self@),
            r matches Ok(o) ==> o@ == built_observer(self@),
            r matches Err(e) ==> e@ == BuilderErrorKind::InvalidParameter,
    {
        let err = BuilderError::invalid_parameter();
        match self.tid {
            None => Err(err),
            Some(tid) => match self.dll {
                None => Err(err),
                Some(dll) => {
                    if self.method.is_empty() {
                        Err(err)
                    } else {
                        Ok(
                            ThreadObserver {
                                threadid: tid,
                                dll,
                                count_threshold: self.count_threshold,
                                count: 0,
                                method: self.method,
                                state: ThreadState::ALIVE,
                            },
                        )
                    }
                },
            },
        }
    }
}


/// Report of a watched call that has been silent for its whole threshold.
#[derive(Debug)]
pub struct LongWaitReport {
    pub tid: u64,
    pub dll: FsPath,
    pub method: &'static str,
}

pub struct ReportView {
    pub tid: u64,
    pub dll: PathView,
    pub method: Seq<char>,
}

impl View for LongWaitReport {
    type V = ReportView;

    open spec fn view(&self) -> ReportView {
        ReportView { tid: self.tid, dll: self.dll@, method: self.method@ }
    }
}

/// The counter of a watched call stays below a positive threshold.
pub open spec fn counter_in_range(o: ObserverView) -> bool {
    0 < o.count_threshold && o.count < o.count_threshold
}

pub open spec fn all_counters_in_range(m: Map<u64, ObserverView>) -> bool {
    forall|t: u64| #[trigger] m.contains_key(t) ==> counter_in_range(m[t])
}

/// One more second counted makes the counter a multiple of the threshold.
pub open spec fn due(o: ObserverView) -> bool {
    (o.count + 1) % (o.count_threshold as int) == 0
}

/// The watched call after one more second: the counter goes up by one and
/// starts again from zero when it reaches the threshold.
pub open spec fn advanced(o: ObserverView) -> ObserverView {
    ObserverView { count: ((o.count + 1) % (o.count_threshold as int)) as u32, ..o }
}

pub open spec fn report_of(o: ObserverView) -> ReportView {
    ReportView { tid: o.tid, dll: o.dll, method: o.method }
}

/// The watched call that `activate` puts in the table.
pub open spec fn activated_observer(method: Seq<char>, tid: u64, dll: PathView) -> ObserverView {
    built_observer(
        BuilderView { tid: Some(tid), dll: Some(dll), method: method, count_threshold: 30 },
    )
}

pub open spec fn unique_tids(s: Seq<ObserverView>) -> bool {
    forall|i: int, j: int|
        0 <= i < s.len() && 0 <= j < s.len() && i != j ==> #[trigger] s[i].tid != #[trigger] s[j].tid
}

pub open spec fn has_tid(s: Seq<ObserverView>, t: u64) -> bool {
    exists|i: int| 0 <= i < s.len() && #[trigger] s[i].tid == t
}

/// The map from thread to watched call that a list of watched calls stands for.
pub open spec fn table_map(s: Seq<ObserverView>) -> Map<u64, ObserverView> {
    Map::new(
        |t: u64| has_tid(s, t),
        |t: u64| s[choose|i: int| 0 <= i < s.len() && #[trigger] s[i].tid == t],
    )
}

proof fn lemma_table_map_at(s: Seq<ObserverView>, i: int)
    requires
        unique_tids(s),
        0 <= i < s.len(),
    ensures
        table_map(s).contains_key(s[i].tid),
        table_map(s)[s[i].tid] == s[i],
{
    let t = s[i].tid;
    assert(has_tid(s, t));
    let j = choose|j: int| 0 <= j < s.len() && #[trigger] s[j].tid == t;
    assert(s[j].tid == t);
    if j != i {
        assert(s[i].tid != s[j].tid);
    }
}

/// The table after watching the call of `method` of plugin `dll` on
/// thread `tid`.
pub open spec fn watching(
    m: Map<u64, ObserverView>,
    method: Seq<char>,
    tid: u64,
    dll: PathView,
) -> Map<u64, ObserverView> {
    m.insert(tid, activated_observer(method, tid, dll))
}

/// The table after the watch on thread `tid` stopped.
pub open spec fn unwatched(m: Map<u64, ObserverView>, tid: u64) -> Map<u64, ObserverView> {
    m.remove(tid)
}

/// The call watched on thread `tid`, if any.
pub open spec fn watched_call(m: Map<u64, ObserverView>, tid: u64) -> Option<ObserverView> {
    if m.contains_key(tid) {
        Some(m[tid])
    } else {
        None
    }
}

/// Replacing the call at a place of the list by one on the same thread
/// replaces it in the map, and keeps the list well formed.
proof fn lemma_table_update(s: Seq<ObserverView>, i: int, o: ObserverView)
    requires
        entries_ok(s),
        0 <= i < s.len(),
        s[i].tid == o.tid,
        counter_in_range(o),
    ensures
        entries_ok(s.update(i, o)),
        table_map(s.update(i, o)) == table_map(s).insert(o.tid, o),
{
    let s2 = s.update(i, o);
    assert forall|a: int, b: int| 0 <= a < s2.len() && 0 <= b < s2.len() && a != b implies #[trigger] s2[a].tid
        != #[trigger] s2[b].tid by {
        assert(s[a].tid != s[b].tid);
    }
    assert forall|a: int| 0 <= a < s2.len() implies counter_in_range(#[trigger] s2[a]) by {
        assert(counter_in_range(s[a]));
    }
    assert forall|t: u64| #[trigger] table_map(s2).contains_key(t) == table_map(s).insert(
        o.tid,
        o,
    ).contains_key(t) by {
        if has_tid(s2, t) {
            let j = choose|j: int| 0 <= j < s2.len() && #[trigger] s2[j].tid == t;
            assert(s[j].tid == t);
        }
        if has_tid(s, t) {
            let j = choose|j: int| 0 <= j < s.len() && #[trigger] s[j].tid == t;
            assert(s2[j].tid == t);
        }
    }
    assert forall|t: u64| #[trigger] table_map(s2).contains_key(t) implies table_map(s2)[t]
        == table_map(s).insert(o.tid, o)[t] by {
        let j = choose|j: int| 0 <= j < s2.len() && #[trigger] s2[j].tid == t;
        lemma_table_map_at(s2, j);
        if j != i {
            lemma_table_map_at(s, j);
        }
    }
    assert(table_map(s2) =~= table_map(s).insert(o.tid, o));
}

/// Adding a call on a thread the list does not hold adds it to the map,
/// and keeps the list well formed.
proof fn lemma_table_push(s: Seq<ObserverView>, o: ObserverView)
    requires
        entries_ok(s),
        !has_tid(s, o.tid),
        counter_in_range(o),
    ensures
        entries_ok(s.push(o)),
        table_map(s.push(o)) == table_map(s).insert(o.tid, o),
{
    let s2 = s.push(o);
    assert forall|a: int, b: int| 0 <= a < s2.len() && 0 <= b < s2.len() && a != b implies #[trigger] s2[a].tid
        != #[trigger] s2[b].tid by {
        if a < s.len() && b < s.len() {
            assert(s[a].tid != s[b].tid);
        } else if a < s.len() {
            assert(s[a].tid == s2[a].tid);
        } else {
            assert(s[b].tid == s2[b].tid);
        }
    }
    assert forall|a: int| 0 <= a < s2.len() implies counter_in_range(#[trigger] s2[a]) by {
        if a < s.len() {
            assert(counter_in_range(s[a]));
        }
    }
    assert forall|t: u64| #[trigger] table_map(s2).contains_key(t) == table_map(s).insert(
        o.tid,
        o,
    ).contains_key(t) by {
        if has_tid(s2, t) {
            let j = choose|j: int| 0 <= j < s2.len() && #[trigger] s2[j].tid == t;
            if j < s.len() {
                assert(s[j].tid == t);
            }
        }
        if has_tid(s, t) {
            let j = choose|j: int| 0 <= j < s.len() && #[trigger] s[j].tid == t;
            assert(s2[j].tid == t);
        }
        if t == o.tid {
            assert(s2[s.len() as int].tid == t);
        }
    }
    assert forall|t: u64| #[trigger] table_map(s2).contains_key(t) implies table_map(s2)[t]
        == table_map(s).insert(o.tid, o)[t] by {
        let j = choose|j: int| 0 <= j < s2.len() && #[trigger] s2[j].tid == t;
        lemma_table_map_at(s2, j);
        if j < s.len() {
            lemma_table_map_at(s, j);
        }
    }
    assert(table_map(s2) =~= table_map(s).insert(o.tid, o));
}

/// Taking out the call at a place of the list takes its thread out of the
/// map, and keeps the list well formed.
proof fn lemma_table_remove(s: Seq<ObserverView>, i: int)
    requires
        entries_ok(s),
        0 <= i < s.len(),
    ensures
        entries_ok(s.remove(i)),
        table_map(s.remove(i)) == table_map(s).remove(s[i].tid),
{
    let s2 = s.remove(i);
    let tid = s[i].tid;
    assert forall|a: int, b: int| 0 <= a < s2.len() && 0 <= b < s2.len() && a != b implies #[trigger] s2[a].tid
        != #[trigger] s2[b].tid by {
        let a0 = if a < i { a } else { a + 1 };
        let b0 = if b < i { b } else { b + 1 };
        assert(s[a0].tid != s[b0].tid);
    }
    assert forall|a: int| 0 <= a < s2.len() implies counter_in_range(#[trigger] s2[a]) by {
        let a0 = if a < i { a } else { a + 1 };
        assert(counter_in_range(s[a0]));
    }
    assert forall|t: u64| #[trigger] table_map(s2).contains_key(t) == table_map(s).remove(
        tid,
    ).contains_key(t) by {
        if has_tid(s2, t) {
            let j = choose|j: int| 0 <= j < s2.len() && #[trigger] s2[j].tid == t;
            let j0 = if j < i { j } else { j + 1 };
            assert(s[j0].tid == t);
            assert(j0 != i);
        }
        if has_tid(s, t) && t != tid {
            let j = choose|j: int| 0 <= j < s.len() && #[trigger] s[j].tid == t;
            assert(j != i);
            let j1 = if j < i { j } else { j - 1 };
            assert(s2[j1].tid == t);
        }
    }
    assert forall|t: u64| #[trigger] table_map(s2).contains_key(t) implies table_map(s2)[t]
        == table_map(s).remove(tid)[t] by {
        let j = choose|j: int| 0 <= j < s2.len() && #[trigger] s2[j].tid == t;
        let j0 = if j < i { j } else { j + 1 };
        lemma_table_map_at(s2, j);
        lemma_table_map_at(s, j0);
    }
    assert(table_map(s2) =~= table_map(s).remove(tid));
}

/// Advancing every call of the list by one second advances every call of
/// the map, and keeps the list well formed.
proof fn lemma_table_advance(s: Seq<ObserverView>, s2: Seq<ObserverView>)
    requires
        entries_ok(s),
        s2.len() == s.len(),
        forall|j: int| 0 <= j < s.len() ==> #[trigger] s2[j] == advanced(s[j]),
    ensures
        entries_ok(s2),
        ticked(table_map(s), table_map(s2)),
{
    assert forall|a: int, b: int| 0 <= a < s2.len() && 0 <= b < s2.len() && a != b implies #[trigger] s2[a].tid
        != #[trigger] s2[b].tid by {
        assert(s2[a] == advanced(s[a]) && s2[b] == advanced(s[b]));
        assert(s[a].tid != s[b].tid);
    }
    assert forall|a: int| 0 <= a < s2.len() implies counter_in_range(#[trigger] s2[a]) by {
        assert(counter_in_range(s[a]));
        assert(s2[a] == advanced(s[a]));
        lemma_mod_bound(s[a].count + 1, s[a].count_threshold as int);
    }
    assert forall|t: u64| #[trigger] table_map(s2).contains_key(t) == table_map(s).contains_key(t) by {
        if has_tid(s2, t) {
            let j = choose|j: int| 0 <= j < s2.len() && #[trigger] s2[j].tid == t;
            assert(s2[j] == advanced(s[j]));
            assert(s[j].tid == t);
        }
        if has_tid(s, t) {
            let j = choose|j: int| 0 <= j < s.len() && #[trigger] s[j].tid == t;
            assert(s2[j] == advanced(s[j]));
            assert(s2[j].tid == t);
        }
    }
    assert(table_map(s2).dom() =~= table_map(s).dom());
    assert forall|t: u64| #[trigger] table_map(s).contains_key(t) implies table_map(s2)[t]
        == advanced(table_map(s)[t]) by {
        let j = choose|j: int| 0 <= j < s.len() && #[trigger] s[j].tid == t;
        lemma_table_map_at(s, j);
        assert(s2[j] == advanced(s[j]));
        lemma_table_map_at(s2, j);
    }
}

/// The plugin calls in progress, one per thread, as the hang detector sees them.
pub struct ObserverTable {
    entries: Vec<ThreadObserver>,
}

spec fn entries_view(v: Seq<ThreadObserver>) -> Seq<ObserverView> {
    v.map_values(|o: ThreadObserver| o@)
}

spec fn entries_ok(s: Seq<ObserverView>) -> bool {
    &&& unique_tids(s)
    &&& forall|i: int| 0 <= i < s.len() ==> counter_in_range(#[trigger] s[i])
}

impl View for ObserverTable {
    type V = Map<u64, ObserverView>;

    closed spec fn view(&self) -> Map<u64, ObserverView> {
        table_map(entries_view(self.entries@))
    }
}

proof fn lemma_ok_in_range(s: Seq<ObserverView>)
    requires
        entries_ok(s),
    ensures
        all_counters_in_range(table_map(s)),
{
    assert forall|t: u64| #[trigger] table_map(s).contains_key(t) implies counter_in_range(
        table_map(s)[t],
    ) by {
        let i = choose|i: int| 0 <= i < s.len() && #[trigger] s[i].tid == t;
        lemma_table_map_at(s, i);
    }
}

fn find_tid(entries: &Vec<ThreadObserver>, tid: u64) -> (r: Option<usize>)
    ensures
        match r {
            Some(i) => i < entries@.len() && entries@[i as int]@.tid == tid,
            None => !has_tid(entries_view(entries@), tid),
        },
{
    let n = entries.len();
    let mut i: usize = 0;
    while i < n
        invariant
            n == entries@.len(),
            i <= n,
            forall|j: int| 0 <= j < i ==> entries@[j]@.tid != tid,
        decreases n - i,
    {
        if entries[i].threadid == tid {
            return Some(i);
        }
        i = i + 1;
    }
    proof {
        let s = entries_view(entries@);
        if has_tid(s, tid) {
            let j = choose|j: int| 0 <= j < s.len() && #[trigger] s[j].tid == tid;
            assert(entries@[j]@.tid == tid);
        }
    }
    None
}

impl ObserverTable {
    #[verifier::type_invariant]
    spec fn table_inv(self) -> bool {
        entries_ok(entries_view(self.entries@))
    }

    /// A table that watches no call.
    pub fn new() -> (r: Self)
        ensures
            r@ == Map::<u64, ObserverView>::empty(),
    {
        let r = ObserverTable { entries: Vec::new() };
        assert(r@ =~= Map::<u64, ObserverView>::empty());
        r
    }

    /// Whether a call on thread `tid` is watched.
    pub fn is_watching(&self, tid: u64) -> (r: bool)
        ensures
            r == watched_call(self@, tid) is Some,
    {
        match find_tid(&self.entries, tid) {
            Some(i) => {
                assert(entries_view(self.entries@)[i as int].tid == tid);
                true
            },
            None => false,
        }
    }

    /// The watched call on thread `tid`, if any.
    pub fn get(&self, tid: u64) -> (r: Option<&ThreadObserver>)
        ensures
            match r {
                Some(o) => watched_call(self@, tid) == Some(o@),
                None => watched_call(self@, tid) is None,
            },
    {
        proof {
            use_type_invariant(self);
        }
        match find_tid(&self.entries, tid) {
            Some(i) => {
                proof {
                    lemma_table_map_at(entries_view(self.entries@), i as int);
                }
                Some(&self.entries[i])
            },
            None => None,
        }
    }

    /// Starts watching the call of `method` of the plugin `dll` on thread
    /// `tid`, with a threshold of thirty seconds, in place of any call
    /// watched on that thread before. Fails, changing nothing, when the
    /// method name is empty.
    pub fn activate(&mut self, method: &'static str, tid: u64, dll: FsPath) -> (r: Result<
        (),
        BuilderError,
    >)
        ensures
            r is Ok <==> method@.len() > 0,
            r is Ok ==> final(self)@ == watching(old(self)@, method@, tid, dll@),
            r matches Err(e) ==> final(self)@ == old(self)@ && e@
                == BuilderErrorKind::InvalidParameter,
            all_counters_in_range(final(self)@),
    {
        proof {
            use_type_invariant(&*self);
            lemma_ok_in_range(entries_view(self.entries@));
        }
        let builder = ThreadObserver::new();
        let built = builder.tid(tid).dll(dll).noresponse_threshold(30).method(method).build();
        let observer = match built {
            Ok(o) => o,
            Err(e) => {
                return Err(e);
            },
        };
        let ghost ov = observer@;
        let mut entries: Vec<ThreadObserver> = Vec::new();
        std::mem::swap(&mut entries, &mut self.entries);
        let ghost old_s = entries_view(entries@);
        match find_tid(&entries, tid) {
            Some(i) => {
                assert(old_s[i as int].tid == tid);
                entries.set(i, observer);
                proof {
                    assert(entries_view(entries@) =~= old_s.update(i as int, ov));
                    lemma_table_update(old_s, i as int, ov);
                }
            },
            None => {
                entries.push(observer);
                proof {
                    assert(entries_view(entries@) =~= old_s.push(ov));
                    lemma_table_push(old_s, ov);
                }
            },
        }
        self.entries = entries;
        proof {
            lemma_ok_in_range(entries_view(self.entries@));
        }
        Ok(())
    }

    /// Stops watching the call on thread `tid`, if there is one.
    pub fn deactivate(&mut self, tid: u64)
        ensures
            final(self)@ == unwatched(old(self)@, tid),
            all_counters_in_range(final(self)@),
    {
        proof {
            use_type_invariant(&*self);
            lemma_ok_in_range(entries_view(self.entries@));
        }
        let mut entries: Vec<ThreadObserver> = Vec::new();
        std::mem::swap(&mut entries, &mut self.entries);
        let ghost old_s = entries_view(entries@);
        match find_tid(&entries, tid) {
            Some(i) => {
                assert(old_s[i as int].tid == tid);
                entries.remove(i);
                proof {
                    assert(entries_view(entries@) =~= old_s.remove(i as int));
                    lemma_table_remove(old_s, i as int);
                }
            },
            None => {
                assert(table_map(old_s) =~= table_map(old_s).remove(tid));
            },
        }
        self.entries = entries;
        proof {
            lemma_ok_in_range(entries_view(self.entries@));
        }
    }

    /// Counts one more second for every watched call. A call whose counter
    /// reaches its threshold is reported, and its counter starts again from
    /// zero. Each report names a different thread; their order is that of
    /// the table, which the contract leaves open.
    pub fn tick(&mut self) -> (r: Vec<LongWaitReport>)
        ensures
            ticked(old(self)@, final(self)@),
            all_counters_in_range(final(self)@),
            forall|k: int|
                0 <= k < r@.len() ==> {
                    let t = #[trigger] r@[k].tid;
                    &&& old(self)@.contains_key(t)
                    &&& due(old(self)@[t])
                    &&& r@[k]@ == report_of(old(self)@[t])
                },
            forall|t: u64|
                #[trigger] old(self)@.contains_key(t) && due(old(self)@[t]) ==> exists|k: int|
                    0 <= k < r@.len() && #[trigger] r@[k].tid == t,
            forall|a: int, b: int|
                0 <= a < r@.len() && 0 <= b < r@.len() && a != b ==> #[trigger] r@[a].tid
                    != #[trigger] r@[b].tid,
    {
        proof {
            use_type_invariant(&*self);
        }
        let mut entries: Vec<ThreadObserver> = Vec::new();
        std::mem::swap(&mut entries, &mut self.entries);
        let ghost old_s = entries_view(entries@);
        let mut reports: Vec<LongWaitReport> = Vec::new();
        let ghost mut idx: Seq<int> = Seq::empty();
        let n = entries.len();
        let mut i: usize = 0;
        while i < n
            invariant
                n == entries@.len(),
                n == old_s.len(),
                i <= n,
                entries_ok(old_s),
                forall|j: int|
                    0 <= j < n ==> #[trigger] entries@[j]@ == (if j < i {
                        advanced(old_s[j])
                    } else {
                        old_s[j]
                    }),
                idx.len() == reports@.len(),
                forall|k: int|
                    0 <= k < idx.len() ==> 0 <= #[trigger] idx[k] < i && due(old_s[idx[k]])
                        && reports@[k]@ == report_of(old_s[idx[k]]),
                forall|a: int, b: int| 0 <= a < b < idx.len() ==> #[trigger] idx[a] < #[trigger] idx[b],
                forall|j: int|
                    0 <= j < i && due(#[trigger] old_s[j]) ==> exists|k: int|
                        0 <= k < idx.len() && idx[k] == j,
            decreases n - i,
        {
            assert(entries@[i as int]@ == old_s[i as int]);
            assert(counter_in_range(old_s[i as int]));
            let threshold = entries[i].count_threshold;
            let next = entries[i].count + 1;
            proof {
                if next < threshold {
                    lemma_small_mod(next as nat, threshold as nat);
                } else {
                    lemma_mod_self_0(threshold as int);
                }
            }
            let ghost idx_before = idx;
            let count = if next % threshold == 0 {
                reports.push(
                    LongWaitReport {
                        tid: entries[i].threadid,
                        dll: entries[i].dll.clone(),
                        method: entries[i].method,
                    },
                );
                proof {
                    idx = idx.push(i as int);
                }
                0
            } else {
                next
            };
            let updated = ThreadObserver {
                threadid: entries[i].threadid,
                dll: entries[i].dll.clone(),
                count_threshold: threshold,
                count,
                method: entries[i].method,
                state: entries[i].state,
            };
            assert(updated@ == advanced(old_s[i as int]));
            entries.set(i, updated);
            proof {
                assert forall|j: int|
                    0 <= j < i + 1 && due(#[trigger] old_s[j]) implies exists|k: int|
                    0 <= k < idx.len() && idx[k] == j by {
                    if j < i {
                        let k = choose|k: int| 0 <= k < idx_before.len() && idx_before[k] == j;
                        assert(idx[k] == j);
                    } else {
                        assert(idx[idx.len() - 1] == j);
                    }
                }
            }
            i = i + 1;
        }
        proof {
            let s = entries_view(entries@);
            assert forall|j: int| 0 <= j < n implies #[trigger] s[j] == advanced(old_s[j]) by {
                assert(entries@[j]@ == advanced(old_s[j]));
            }
            lemma_table_advance(old_s, s);
            assert forall|k: int| 0 <= k < reports@.len() implies {
                let t = #[trigger] reports@[k].tid;
                &&& table_map(old_s).contains_key(t)
                &&& due(table_map(old_s)[t])
                &&& reports@[k]@ == report_of(table_map(old_s)[t])
            } by {
                lemma_table_map_at(old_s, idx[k]);
            }
            assert forall|t: u64| #[trigger]
                table_map(old_s).contains_key(t) && due(table_map(old_s)[t]) implies exists|k: int|
                0 <= k < reports@.len() && #[trigger] reports@[k].tid == t by {
                let j = choose|j: int| 0 <= j < old_s.len() && #[trigger] old_s[j].tid == t;
                lemma_table_map_at(old_s, j);
                let k = choose|k: int| 0 <= k < idx.len() && idx[k] == j;
                assert(reports@[k]@ == report_of(old_s[j]));
                assert(reports@[k].tid == t);
            }
            assert forall|a: int, b: int|
                0 <= a < reports@.len() && 0 <= b < reports@.len() && a != b implies #[trigger] reports@[a].tid
                != #[trigger] reports@[b].tid by {
                assert(reports@[a]@ == report_of(old_s[idx[a]]));
                assert(reports@[b]@ == report_of(old_s[idx[b]]));
                if a < b {
                    assert(idx[a] < idx[b]);
                } else {
                    assert(idx[b] < idx[a]);
                }
                assert(old_s[idx[a]].tid != old_s[idx[b]].tid);
            }
        }
        self.entries = entries;
        proof {
            lemma_ok_in_range(entries_view(self.entries@));
        }
        reports
    }
}

/// A builder told the thread, the plugin file and a non-empty method name,
/// in any order, builds a watched call that carries exactly those, with the
/// default threshold, nothing counted and the thread alive.
pub proof fn lemma_builder_chain_builds(tid: u64, dll: PathView, method: Seq<char>)
    requires
        method.len() > 0,
    ensures
        ({
            let b = BuilderView { tid: Some(tid), ..fresh_builder() };
            let b = BuilderView { dll: Some(dll), ..b };
            let b = BuilderView { method: method, ..b };
            &&& builder_complete(b)
            &&& built_observer(b) == ObserverView {
                tid,
                dll,
                method,
                count_threshold: LONG_WAIT_THREAD_SECS,
                count: 0,
                state: ThreadState::ALIVE,
            }
        }),
        ({
            let b = BuilderView { method: method, ..fresh_builder() };
            let b = BuilderView { dll: Some(dll), ..b };
            let b = BuilderView { tid: Some(tid), ..b };
            &&& builder_complete(b)
            &&& built_observer(b) == ObserverView {
                tid,
                dll,
                method,
                count_threshold: LONG_WAIT_THREAD_SECS,
                count: 0,
                state: ThreadState::ALIVE,
            }
        }),
{
}

/// Watching a call on a thread that was not watched, then stopping it,
/// gives back the table as it was.
pub proof fn lemma_activate_then_deactivate(
    m: Map<u64, ObserverView>,
    method: Seq<char>,
    tid: u64,
    dll: PathView,
)
    requires
        watched_call(m, tid) is None,
    ensures
        unwatched(watching(m, method, tid, dll), tid) == m,
{
    assert(unwatched(watching(m, method, tid, dll), tid) =~= m);
}

/// Watching a call makes it the one watched on its thread; stopping the
/// watch on a thread leaves none there; neither changes what is watched on
/// other threads.
pub proof fn lemma_activate_reads_back(
    m: Map<u64, ObserverView>,
    method: Seq<char>,
    tid: u64,
    dll: PathView,
    other: u64,
)
    requires
        other != tid,
    ensures
        watched_call(watching(m, method, tid, dll), tid) == Some(
            activated_observer(method, tid, dll),
        ),
        watched_call(watching(m, method, tid, dll), other) == watched_call(m, other),
        watched_call(unwatched(m, tid), tid) is None,
        watched_call(unwatched(m, tid), other) == watched_call(m, other),
{
}

/// The watched call after `n` more seconds.
pub open spec fn advanced_by(o: ObserverView, n: nat) -> ObserverView
    decreases n,
{
    if n == 0 {
        o
    } else {
        advanced(advanced_by(o, (n - 1) as nat))
    }
}

/// A watched call is reported once every threshold seconds: from a count
/// `c` below the threshold, after `n` more seconds its counter is `c + n`
/// modulo the threshold, and the next second reports it exactly when
/// `c + n + 1` is a multiple of the threshold, that is on the seconds
/// numbered `k * threshold - c` for `k >= 1` and on no other.
pub proof fn lemma_reported_every_threshold(o: ObserverView, n: nat)
    requires
        counter_in_range(o),
    ensures
        advanced_by(o, n).count_threshold == o.count_threshold,
        advanced_by(o, n).tid == o.tid,
        advanced_by(o, n).dll == o.dll,
        advanced_by(o, n).method == o.method,
        advanced_by(o, n).count == (o.count + n) % (o.count_threshold as int),
        counter_in_range(advanced_by(o, n)),
        due(advanced_by(o, n)) <==> (o.count + n + 1) % (o.count_threshold as int) == 0,
    decreases n,
{
    let t = o.count_threshold as int;
    let c = o.count as int;
    if n == 0 {
        lemma_small_mod(o.count as nat, t as nat);
    } else {
        let m = (n - 1) as nat;
        lemma_reported_every_threshold(o, m);
        lemma_add_mod_noop_right(1, c + m, t);
        assert(c + m + 1 == c + n);
    }
    lemma_mod_bound(c + n, t);
    lemma_add_mod_noop_right(1, c + n, t);
}

/// Two tables one tick apart: the same threads, each call advanced by one
/// second, as `tick` leaves them.
pub open spec fn ticked(before: Map<u64, ObserverView>, after: Map<u64, ObserverView>) -> bool {
    &&& after.dom() == before.dom()
    &&& forall|u: u64| #[trigger] before.contains_key(u) ==> after[u] == advanced(before[u])
}

/// Over successive ticks of the table, a call that stays watched and starts
/// at count `c` below its threshold is due, and so reported by `tick`, on
/// tick `k + 1` exactly when `c + k + 1` is a multiple of its threshold:
/// every threshold ticks, the first time after `threshold - c` of them.
pub proof fn lemma_table_reports_every_threshold(ms: Seq<Map<u64, ObserverView>>, t: u64)
    requires
        ms.len() >= 1,
        ms[0].contains_key(t),
        counter_in_range(ms[0][t]),
        forall|k: int| 0 <= k < ms.len() - 1 ==> ticked(#[trigger] ms[k], ms[k + 1]),
    ensures
        forall|k: int|
            0 <= k < ms.len() ==> #[trigger] ms[k].contains_key(t) && ms[k][t] == advanced_by(
                ms[0][t],
                k as nat,
            ),
        forall|k: int|
            0 <= k < ms.len() - 1 ==> (due(#[trigger] ms[k][t]) <==> (ms[0][t].count + k + 1) % (
            ms[0][t].count_threshold as int) == 0),
    decreases ms.len(),
{
    if ms.len() > 1 {
        let init = ms.drop_last();
        assert forall|k: int| 0 <= k < init.len() - 1 implies ticked(#[trigger] init[k], init[k + 1]) by {
            assert(init[k] == ms[k] && init[k + 1] == ms[k + 1]);
        }
        lemma_table_reports_every_threshold(init, t);
        let last = ms.len() - 1;
        assert(init[last - 1] == ms[last - 1]);
        assert(ticked(ms[last - 1], ms[last]));
        assert(ms[last].contains_key(t));
        assert(advanced_by(ms[0][t], last as nat) == advanced(advanced_by(ms[0][t], (last - 1) as nat)));
        assert forall|k: int| 0 <= k < ms.len() implies #[trigger] ms[k].contains_key(t) && ms[k][t]
            == advanced_by(ms[0][t], k as nat) by {
            if k < last {
                assert(init[k] == ms[k]);
            }
        }
        assert forall|k: int| 0 <= k < ms.len() - 1 implies (due(#[trigger] ms[k][t]) <==> (
        ms[0][t].count + k + 1) % (ms[0][t].count_threshold as int) == 0) by {
            assert(ms[k][t] == advanced_by(ms[0][t], k as nat));
            lemma_reported_every_threshold(ms[0][t], k as nat);
        }
    } else {
        assert(ms[0][t] == advanced_by(ms[0][t], 0));
    }
}

/// A fresh builder knows no thread, no plugin file and no method, and has
/// the default threshold of thirty seconds.
pub proof fn lemma_fresh_builder_is_empty()
    ensures
        fresh_builder().tid is None,
        fresh_builder().dll is None,
        fresh_builder().method.len() == 0,
        fresh_builder().count_threshold == 30,
{
}

/// A builder can build exactly when it knows the thread, the plugin file
/// and a non-empty method name.
pub proof fn lemma_build_needs_all_parameters(b: BuilderView)
    ensures
        builder_complete(b) <==> (b.tid is Some && b.dll is Some && b.method.len() > 0),
{
}

/// A built call carries everything the builder was given, its threshold
/// included; it starts with nothing counted, on a live thread.
pub proof fn lemma_build_keeps_parameters(b: BuilderView)
    requires
        builder_complete(b),
    ensures
        Some(built_observer(b).tid) == b.tid,
        Some(built_observer(b).dll) == b.dll,
        built_observer(b).method == b.method,
        built_observer(b).count_threshold == b.count_threshold,
        built_observer(b).count == 0,
        built_observer(b).state == ThreadState::ALIVE,
{
}

/// Whatever threshold `noresponse_threshold` sets, in whatever order the
/// other parameters come, is the threshold of the call that is built.
pub proof fn lemma_threshold_reaches_built_call(
    tid: u64,
    dll: PathView,
    method: Seq<char>,
    sec: u32,
)
    requires
        method.len() > 0,
    ensures
        ({
            let b = BuilderView { tid: Some(tid), ..fresh_builder() };
            let b = BuilderView { dll: Some(dll), ..b };
            let b = BuilderView { count_threshold: sec, ..b };
            let b = BuilderView { method: method, ..b };
            builder_complete(b) && built_observer(b).count_threshold == sec
        }),
        ({
            let b = BuilderView { count_threshold: sec, ..fresh_builder() };
            let b = BuilderView { method: method, ..b };
            let b = BuilderView { tid: Some(tid), ..b };
            let b = BuilderView { dll: Some(dll), ..b };
            builder_complete(b) && built_observer(b).count_threshold == sec
        }),
{
}

/// The call that activation watches is the one the builder builds from the
/// thread, the plugin file, the method and a threshold of thirty seconds:
/// nothing counted yet, on a live thread.
pub proof fn lemma_activated_call_is_fresh(method: Seq<char>, tid: u64, dll: PathView)
    requires
        method.len() > 0,
    ensures
        activated_observer(method, tid, dll) == built_observer(
            BuilderView { tid: Some(tid), dll: Some(dll), method: method, count_threshold: 30 },
        ),
        activated_observer(method, tid, dll).tid == tid,
        activated_observer(method, tid, dll).dll == dll,
        activated_observer(method, tid, dll).method == method,
        activated_observer(method, tid, dll).count_threshold == 30,
        activated_observer(method, tid, dll).count == 0,
        activated_observer(method, tid, dll).state == ThreadState::ALIVE,
        counter_in_range(activated_observer(method, tid, dll)),
{
}

/// One more second raises the counter by one, wrapping to zero at the
/// threshold, and changes nothing else of the call; the call is due when
/// the raised counter is a multiple of the threshold, and its report names
/// its thread, plugin file and method.
pub proof fn lemma_one_second(o: ObserverView)
    requires
        counter_in_range(o),
    ensures
        advanced(o).count == if o.count + 1 == o.count_threshold {
            0
        } else {
            o.count + 1
        },
        advanced(o).tid == o.tid,
        advanced(o).dll == o.dll,
        advanced(o).method == o.method,
        advanced(o).count_threshold == o.count_threshold,
        advanced(o).state == o.state,
        due(o) <==> o.count + 1 == o.count_threshold,
        report_of(o).tid == o.tid,
        report_of(o).dll == o.dll,
        report_of(o).method == o.method,
{
    let t = o.count_threshold as int;
    if o.count + 1 < t {
        lemma_small_mod((o.count + 1) as nat, t as nat);
    } else {
        lemma_mod_self_0(t);
    }
}

/// A tick keeps the watched threads, and gives each call one more second:
/// the counter raised by one, wrapping to zero at the threshold.
pub proof fn lemma_ticked_counts_one_second(
    before: Map<u64, ObserverView>,
    after: Map<u64, ObserverView>,
    t: u64,
)
    requires
        ticked(before, after),
        all_counters_in_range(before),
    ensures
        after.contains_key(t) <==> before.contains_key(t),
        before.contains_key(t) ==> after[t].count == if before[t].count + 1
            == before[t].count_threshold {
            0
        } else {
            before[t].count + 1
        },
        before.contains_key(t) ==> after[t].count_threshold == before[t].count_threshold
            && after[t].tid == before[t].tid && after[t].method == before[t].method
            && after[t].dll == before[t].dll && after[t].state == before[t].state,
{
    if before.contains_key(t) {
        lemma_one_second(before[t]);
    }
}

} // verus!
