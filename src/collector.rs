use vstd::prelude::*;
use crate::json::{entries_model, items_model, lemma_entries_model, lemma_items_model, Json, JsonModel};
use crate::test_spec::{BucketOperation, BucketSpec};

verus! {

broadcast use vstd::std_specs::vec::group_vec_axioms;

/// The finalizer that keeps a watched object from vanishing before it was observed.
pub fn finalizer_name() -> (r: String)
    ensures
        r@ == "blackjack.io/finalizer"@,
{
    String::from_str("blackjack.io/finalizer")
}

/// Seconds a watch waits after an error before it reads its stream again.
pub const WATCH_BACKOFF_SECONDS: u64 = 10;

/// What a watch's event stream delivered.
#[derive(Clone, Copy, Debug, PartialEq, Eq, Structural)]
pub enum WatchEvent {
    /// An object was listed or changed; whether it carries a uid.
    Applied(bool),
    /// Any other event (a deletion seen after the fact, the start or end of a listing).
    Other,
    /// The stream reported an error.
    StreamError,
}

/// How a watch reacts to an event.
#[derive(Clone, Copy, Debug, PartialEq, Eq, Structural)]
pub enum WatchReaction {
    /// Reflect the object into the buckets (`observe`).
    Handle,
    Ignore,
    /// Log the error and wait `WATCH_BACKOFF_SECONDS` before going on.
    BackOff,
}

/// A listed or changed object with a uid is handled; one without a uid, and a stream error,
/// make the watch back off; other events are ignored.
pub fn watch_reaction(event: WatchEvent) -> (r: WatchReaction)
    ensures
        r == match event {
            WatchEvent::Applied(true) => WatchReaction::Handle,
            WatchEvent::Applied(false) => WatchReaction::BackOff,
            WatchEvent::Other => WatchReaction::Ignore,
            WatchEvent::StreamError => WatchReaction::BackOff,
        },
{
    match event {
        WatchEvent::Applied(has_uid) => if has_uid {
            WatchReaction::Handle
        } else {
            WatchReaction::BackOff
        },
        WatchEvent::Other => WatchReaction::Ignore,
        WatchEvent::StreamError => WatchReaction::BackOff,
    }
}

/// Objects observed for one watch, by uid, and the operations the bucket reflects.
#[derive(Debug)]
pub struct Bucket {
    pub allowed_operations: Vec<BucketOperation>,
    pub data: Vec<(String, Json)>,
}

/// Mathematical model of a bucket: its mask and its entries, uid to object, in insertion order.
pub struct BucketModel {
    pub ops: Set<BucketOperation>,
    pub data: Seq<(Seq<char>, JsonModel)>,
}

impl View for Bucket {
    type V = BucketModel;

    open spec fn view(&self) -> BucketModel {
        BucketModel { ops: self.allowed_operations@.to_set(), data: entries_model(self.data@) }
    }
}

/// All buckets of a test, by name.
#[derive(Debug)]
pub struct CollectedData {
    pub buckets: Vec<(String, Bucket)>,
}

pub open spec fn buckets_model(s: Seq<(String, Bucket)>) -> Seq<(Seq<char>, BucketModel)>
    decreases s.len(),
{
    if s.len() == 0 {
        Seq::empty()
    } else {
        buckets_model(s.drop_last()).push((s.last().0@, s.last().1@))
    }
}

pub proof fn lemma_buckets_model(s: Seq<(String, Bucket)>)
    ensures
        buckets_model(s).len() == s.len(),
        forall|i: int|
            0 <= i < s.len() ==> #[trigger] buckets_model(s)[i] == (s[i].0@, s[i].1@),
    decreases s.len(),
{
    if s.len() > 0 {
        lemma_buckets_model(s.drop_last());
    }
}

impl View for CollectedData {
    type V = Seq<(Seq<char>, BucketModel)>;

    open spec fn view(&self) -> Seq<(Seq<char>, BucketModel)> {
        buckets_model(self.buckets@)
    }
}

pub open spec fn all_operations() -> Set<BucketOperation> {
    set![BucketOperation::Create, BucketOperation::Patch, BucketOperation::Delete]
}

pub open spec fn default_bucket() -> BucketModel {
    BucketModel { ops: all_operations(), data: Seq::empty() }
}

pub open spec fn key_at<T>(es: Seq<(Seq<char>, T)>, k: Seq<char>, i: int) -> bool {
    0 <= i < es.len() && es[i].0 == k
}

pub open spec fn has_key<T>(es: Seq<(Seq<char>, T)>, k: Seq<char>) -> bool {
    exists|i: int| key_at(es, k, i)
}

pub open spec fn unique_keys<T>(es: Seq<(Seq<char>, T)>) -> bool {
    forall|i: int, j: int| 0 <= i < es.len() && 0 <= j < es.len() && es[i].0 == es[j].0 ==> i == j
}

/// The value under key `k`, where `k` occurs.
pub open spec fn value_at<T>(es: Seq<(Seq<char>, T)>, k: Seq<char>) -> T {
    es[choose|i: int| key_at(es, k, i)].1
}

/// A bucket's entries after observing object `v` under `uid`: a new uid is recorded only
/// under `Create`, a known one replaced only under `Patch`.
pub open spec fn put_spec(
    es: Seq<(Seq<char>, JsonModel)>,
    uid: Seq<char>,
    v: JsonModel,
    ops: Set<BucketOperation>,
) -> Seq<(Seq<char>, JsonModel)> {
    if has_key(es, uid) {
        if ops.contains(BucketOperation::Patch) {
            es.update(choose|i: int| key_at(es, uid, i), (uid, v))
        } else {
            es
        }
    } else if ops.contains(BucketOperation::Create) {
        es.push((uid, v))
    } else {
        es
    }
}

/// A bucket's entries after `uid` was deleted on the cluster: removed only under `Delete`.
pub open spec fn drop_spec(
    es: Seq<(Seq<char>, JsonModel)>,
    uid: Seq<char>,
    ops: Set<BucketOperation>,
) -> Seq<(Seq<char>, JsonModel)> {
    if has_key(es, uid) && ops.contains(BucketOperation::Delete) {
        es.remove(choose|i: int| key_at(es, uid, i))
    } else {
        es
    }
}

/// Some bucket holds `uid`.
pub open spec fn stored(bs: Seq<(Seq<char>, BucketModel)>, uid: Seq<char>) -> bool {
    exists|i: int| 0 <= i < bs.len() && has_key(#[trigger] bs[i].1.data, uid)
}

/// The store is well formed: bucket names unique, uids unique within each bucket.
pub open spec fn store_wf(bs: Seq<(Seq<char>, BucketModel)>) -> bool {
    &&& unique_keys(bs)
    &&& forall|i: int| 0 <= i < bs.len() ==> unique_keys(#[trigger] bs[i].1.data)
}

/// The store with bucket `name` replaced by `b`, or with `b` added last where there is none.
pub open spec fn with_bucket(
    bs: Seq<(Seq<char>, BucketModel)>,
    name: Seq<char>,
    b: BucketModel,
) -> Seq<(Seq<char>, BucketModel)> {
    if has_key(bs, name) {
        bs.update(choose|i: int| key_at(bs, name, i), (name, b))
    } else {
        bs.push((name, b))
    }
}

/// The bucket `name`, or a default one where there is none.
pub open spec fn bucket_or_default(bs: Seq<(Seq<char>, BucketModel)>, name: Seq<char>) -> BucketModel {
    if has_key(bs, name) {
        value_at(bs, name)
    } else {
        default_bucket()
    }
}

/// The store after object `v` with `uid` was observed by the watch feeding bucket `name`.
pub open spec fn put_store(
    bs: Seq<(Seq<char>, BucketModel)>,
    name: Seq<char>,
    uid: Seq<char>,
    v: JsonModel,
) -> Seq<(Seq<char>, BucketModel)> {
    let b = bucket_or_default(bs, name);
    with_bucket(bs, name, BucketModel { ops: b.ops, data: put_spec(b.data, uid, v, b.ops) })
}

/// The store after `uid` was deleted on the cluster.
pub open spec fn drop_store(bs: Seq<(Seq<char>, BucketModel)>, uid: Seq<char>) -> Seq<
    (Seq<char>, BucketModel),
> {
    Seq::new(
        bs.len(),
        |i: int|
            (bs[i].0, BucketModel { ops: bs[i].1.ops, data: drop_spec(bs[i].1.data, uid, bs[i].1.ops) }),
    )
}

/// The store after the masks of `specs` were set, one after the other.
pub open spec fn masks_applied(bs: Seq<(Seq<char>, BucketModel)>, specs: Seq<BucketSpec>) -> Seq<
    (Seq<char>, BucketModel),
>
    decreases specs.len(),
{
    if specs.len() == 0 {
        bs
    } else {
        let prev = masks_applied(bs, specs.drop_last());
        let s = specs.last();
        with_bucket(
            prev,
            s.name@,
            BucketModel { ops: s.operations@.to_set(), data: bucket_or_default(prev, s.name@).data },
        )
    }
}

/// The objects of a bucket, in the bucket's order.
pub open spec fn values_of(es: Seq<(Seq<char>, JsonModel)>) -> Seq<JsonModel> {
    Seq::new(es.len(), |i: int| es[i].1)
}

/// Every entry of every bucket, bucket by bucket.
pub open spec fn all_entries(bs: Seq<(Seq<char>, BucketModel)>) -> Seq<(Seq<char>, JsonModel)>
    decreases bs.len(),
{
    if bs.len() == 0 {
        Seq::empty()
    } else {
        all_entries(bs.drop_last()) + bs.last().1.data
    }
}

fn mask_contains(ops: &Vec<BucketOperation>, op: BucketOperation) -> (r: bool)
    ensures
        r == ops@.to_set().contains(op),
{
    let mut i: usize = 0;
    while i < ops.len()
        invariant
            i <= ops@.len(),
            forall|j: int| 0 <= j < i ==> ops@[j] != op,
        decreases ops@.len() - i,
    {
        if ops[i] == op {
            proof {
                assert(ops@.contains(op));
            }
            return true;
        }
        i = i + 1;
    }
    false
}

/// Index of the entry with key `k`.
fn find_entry(es: &Vec<(String, Json)>, k: &String) -> (r: Option<usize>)
    ensures
        r matches Some(i) ==> key_at(entries_model(es@), k@, i as int),
        r is None ==> !has_key(entries_model(es@), k@),
{
    proof {
        lemma_entries_model(es@);
    }
    let mut i: usize = 0;
    while i < es.len()
        invariant
            i <= es@.len(),
            entries_model(es@).len() == es@.len(),
            forall|j: int| 0 <= j < es@.len() ==> #[trigger] entries_model(es@)[j] == (es@[j].0@, es@[j].1@),
            forall|j: int| 0 <= j < i ==> (#[trigger] es@[j]).0@ != k@,
        decreases es@.len() - i,
    {
        if es[i].0 == *k {
            return Some(i);
        }
        i = i + 1;
    }
    proof {
        assert forall|j: int| !key_at(entries_model(es@), k@, j) by {
            if 0 <= j < es@.len() {
                assert(es@[j].0@ != k@);
            }
        }
    }
    None
}

/// Index of the bucket named `name`.
fn find_bucket(bs: &Vec<(String, Bucket)>, name: &String) -> (r: Option<usize>)
    ensures
        r matches Some(i) ==> key_at(buckets_model(bs@), name@, i as int),
        r is None ==> !has_key(buckets_model(bs@), name@),
{
    proof {
        lemma_buckets_model(bs@);
    }
    let mut i: usize = 0;
    while i < bs.len()
        invariant
            i <= bs@.len(),
            buckets_model(bs@).len() == bs@.len(),
            forall|j: int| 0 <= j < bs@.len() ==> #[trigger] buckets_model(bs@)[j] == (bs@[j].0@, bs@[j].1@),
            forall|j: int| 0 <= j < i ==> (#[trigger] bs@[j]).0@ != name@,
        decreases bs@.len() - i,
    {
        if bs[i].0 == *name {
            return Some(i);
        }
        i = i + 1;
    }
    proof {
        assert forall|j: int| !key_at(buckets_model(bs@), name@, j) by {
            if 0 <= j < bs@.len() {
                assert(bs@[j].0@ != name@);
            }
        }
    }
    None
}

impl Default for Bucket {
    fn default() -> (r: Bucket)
        ensures
            r@ == default_bucket(),
    {
        let ops = vec![BucketOperation::Create, BucketOperation::Patch, BucketOperation::Delete];
        proof {
            assert(ops@.to_set() =~= all_operations()) by {
                assert(ops@[0] == BucketOperation::Create);
                assert(ops@[1] == BucketOperation::Patch);
                assert(ops@[2] == BucketOperation::Delete);
            }
            assert(entries_model(Seq::<(String, Json)>::empty()) =~= Seq::empty());
        }
        Bucket { allowed_operations: ops, data: Vec::new() }
    }
}

impl Bucket {
    /// An empty bucket that reflects the given operations.
    pub fn new(allowed_operations: Vec<BucketOperation>) -> (r: Bucket)
        ensures
            r@.ops == allowed_operations@.to_set(),
            r@.data == Seq::<(Seq<char>, JsonModel)>::empty(),
    {
        proof {
            assert(entries_model(Seq::<(String, Json)>::empty()) =~= Seq::empty());
        }
        Bucket { allowed_operations, data: Vec::new() }
    }

    /// Records object `value` under `uid` as the mask allows.
    fn put(&mut self, uid: String, value: Json)
        requires
            unique_keys(old(self)@.data),
        ensures
            final(self)@.ops == old(self)@.ops,
            final(self)@.data == put_spec(old(self)@.data, uid@, value@, old(self)@.ops),
            unique_keys(final(self)@.data),
    {
        let ghost es = self@.data;
        proof {
            lemma_entries_model(self.data@);
        }
        match find_entry(&self.data, &uid) {
            Some(i) => {
                if mask_contains(&self.allowed_operations, BucketOperation::Patch) {
                    let ghost old_data = self.data@;
                    self.data.set(i, (uid, value));
                    proof {
                        let c = choose|j: int| key_at(es, uid@, j);
                        assert(key_at(es, uid@, c));
                        assert(c == i);
                        lemma_entries_model(self.data@);
                        assert(entries_model(self.data@) =~= es.update(i as int, (uid@, value@)));
                        let ns = es.update(i as int, (uid@, value@));
                        assert forall|a: int, b: int|
                            0 <= a < ns.len() && 0 <= b < ns.len() && ns[a].0 == ns[b].0 implies a == b by {
                            assert(ns[a].0 == es[a].0);
                            assert(ns[b].0 == es[b].0);
                        }
                    }
                }
            },
            None => {
                if mask_contains(&self.allowed_operations, BucketOperation::Create) {
                    self.data.push((uid, value));
                    proof {
                        lemma_entries_model(self.data@);
                        assert(entries_model(self.data@) =~= es.push((uid@, value@)));
                        let ns = es.push((uid@, value@));
                        assert forall|a: int, b: int|
                            0 <= a < ns.len() && 0 <= b < ns.len() && ns[a].0 == ns[b].0 implies a == b by {
                            if a < es.len() && b == es.len() {
                                assert(key_at(es, uid@, a));
                            }
                            if b < es.len() && a == es.len() {
                                assert(key_at(es, uid@, b));
                            }
                        }
                    }
                }
            },
        }
    }

    /// Removes `uid` if the mask has `Delete`.
    fn drop_uid(&mut self, uid: &String)
        requires
            unique_keys(old(self)@.data),
        ensures
            final(self)@.ops == old(self)@.ops,
            final(self)@.data == drop_spec(old(self)@.data, uid@, old(self)@.ops),
            unique_keys(final(self)@.data),
    {
        let ghost es = self@.data;
        proof {
            lemma_entries_model(self.data@);
        }
        if mask_contains(&self.allowed_operations, BucketOperation::Delete) {
            match find_entry(&self.data, uid) {
                Some(i) => {
                    self.data.remove(i);
                    proof {
                        let c = choose|j: int| key_at(es, uid@, j);
                        assert(key_at(es, uid@, c));
                        assert(c == i);
                        lemma_entries_model(self.data@);
                        assert(entries_model(self.data@) =~= es.remove(i as int));
                    }
                },
                None => {},
            }
        }
    }
}

fn copy_operations(ops: &Vec<BucketOperation>) -> (r: Vec<BucketOperation>)
    ensures
        r@ == ops@,
{
    let mut v: Vec<BucketOperation> = Vec::new();
    let mut i: usize = 0;
    while i < ops.len()
        invariant
            i <= ops@.len(),
            v@ == ops@.subrange(0, i as int),
        decreases ops@.len() - i,
    {
        v.push(ops[i]);
        i = i + 1;
        proof {
            assert(v@ =~= ops@.subrange(0, i as int));
        }
    }
    proof {
        assert(v@ =~= ops@);
    }
    v
}

proof fn lemma_key_at_unique<T>(es: Seq<(Seq<char>, T)>, k: Seq<char>, i: int)
    requires
        unique_keys(es),
        key_at(es, k, i),
    ensures
        has_key(es, k),
        (choose|j: int| key_at(es, k, j)) == i,
        value_at(es, k) == es[i].1,
{
    let c = choose|j: int| key_at(es, k, j);
    assert(key_at(es, k, c));
}

impl CollectedData {
    pub fn new() -> (r: CollectedData)
        ensures
            r@ == Seq::<(Seq<char>, BucketModel)>::empty(),
            store_wf(r@),
    {
        let r = CollectedData { buckets: Vec::new() };
        proof {
            assert(r@ =~= Seq::<(Seq<char>, BucketModel)>::empty());
        }
        r
    }

    /// Whether some bucket holds `uid`.
    pub fn contains(&self, uid: &String) -> (r: bool)
        ensures
            r == stored(self@, uid@),
    {
        proof {
            lemma_buckets_model(self.buckets@);
        }
        let mut i: usize = 0;
        while i < self.buckets.len()
            invariant
                i <= self.buckets@.len(),
                self@.len() == self.buckets@.len(),
                forall|j: int| 0 <= j < self.buckets@.len() ==> #[trigger] self@[j] == (
                    self.buckets@[j].0@,
                    self.buckets@[j].1@,
                ),
                forall|j: int| 0 <= j < i ==> !has_key(#[trigger] self@[j].1.data, uid@),
            decreases self.buckets@.len() - i,
        {
            if find_entry(&self.buckets[i].1.data, uid).is_some() {
                proof {
                    assert(has_key(self@[i as int].1.data, uid@));
                }
                return true;
            }
            i = i + 1;
        }
        false
    }

    /// Index of the bucket `name`, made with the default mask where there was none.
    fn bucket_index(&mut self, name: &String) -> (i: usize)
        requires
            store_wf(old(self)@),
        ensures
            final(self)@ == with_bucket(old(self)@, name@, bucket_or_default(old(self)@, name@)),
            i < final(self)@.len(),
            key_at(final(self)@, name@, i as int),
            final(self)@[i as int].1 == bucket_or_default(old(self)@, name@),
            has_key(old(self)@, name@) ==> (choose|j: int| key_at(old(self)@, name@, j)) == i,
            !has_key(old(self)@, name@) ==> i == old(self)@.len(),
            store_wf(final(self)@),
            final(self).buckets@.len() == final(self)@.len(),
    {
        proof {
            lemma_buckets_model(self.buckets@);
        }
        match find_bucket(&self.buckets, name) {
            Some(i) => {
                proof {
                    lemma_key_at_unique(self@, name@, i as int);
                    assert(self@.update(i as int, (name@, self@[i as int].1)) =~= self@);
                }
                i
            },
            None => {
                let ghost old_view = self@;
                self.buckets.push((name.clone(), Bucket::default()));
                proof {
                    lemma_buckets_model(self.buckets@);
                    assert(self@ =~= old_view.push((name@, default_bucket())));
                    let ns = self@;
                    assert forall|a: int, b: int|
                        0 <= a < ns.len() && 0 <= b < ns.len() && ns[a].0 == ns[b].0 implies a == b by {
                        if a < old_view.len() && b == old_view.len() {
                            assert(key_at(old_view, name@, a));
                        }
                        if b < old_view.len() && a == old_view.len() {
                            assert(key_at(old_view, name@, b));
                        }
                    }
                    assert forall|j: int| 0 <= j < ns.len() implies unique_keys(#[trigger] ns[j].1.data) by {
                        if j < old_view.len() {
                            assert(ns[j] == old_view[j]);
                        }
                    }
                }
                self.buckets.len() - 1
            },
        }
    }

    /// Sets the operations that bucket `name` reflects, making the bucket where there is none.
    pub fn set_mask(&mut self, name: &String, operations: &Vec<BucketOperation>)
        requires
            store_wf(old(self)@),
        ensures
            final(self)@ == with_bucket(
                old(self)@,
                name@,
                BucketModel {
                    ops: operations@.to_set(),
                    data: bucket_or_default(old(self)@, name@).data,
                },
            ),
            store_wf(final(self)@),
    {
        let ghost old_view = self@;
        let i = self.bucket_index(name);
        let ghost mid = self@;
        proof {
            lemma_buckets_model(self.buckets@);
        }
        let (n, mut b) = self.buckets.remove(i);
        b.allowed_operations = copy_operations(operations);
        self.buckets.insert(i, (n, b));
        proof {
            lemma_buckets_model(self.buckets@);
            assert(self@ =~= mid.update(i as int, (name@, BucketModel {
                ops: operations@.to_set(),
                data: bucket_or_default(old_view, name@).data,
            })));
            assert forall|a: int, c: int|
                0 <= a < self@.len() && 0 <= c < self@.len() && self@[a].0 == self@[c].0 implies a == c by {
                assert(self@[a].0 == mid[a].0);
                assert(self@[c].0 == mid[c].0);
            }
            assert forall|j: int| 0 <= j < self@.len() implies unique_keys(#[trigger] self@[j].1.data) by {
                assert(unique_keys(mid[j].1.data));
            }
            if !has_key(old_view, name@) {
                assert(self@ =~= old_view.push((name@, BucketModel {
                    ops: operations@.to_set(),
                    data: bucket_or_default(old_view, name@).data,
                })));
            }
        }
    }

    /// Sets the masks that a step's bucket specs ask for, in order.
    pub fn apply_bucket_specs(&mut self, specs: &Vec<BucketSpec>)
        requires
            store_wf(old(self)@),
        ensures
            store_wf(final(self)@),
            final(self)@ == masks_applied(old(self)@, specs@),
    {
        let mut i: usize = 0;
        let ghost start = self@;
        proof {
            assert(specs@.subrange(0, 0) =~= Seq::<BucketSpec>::empty());
        }
        while i < specs.len()
            invariant
                i <= specs@.len(),
                store_wf(self@),
                self@ == masks_applied(start, specs@.subrange(0, i as int)),
            decreases specs@.len() - i,
        {
            self.set_mask(&specs[i].name, &specs[i].operations);
            proof {
                assert(specs@.subrange(0, i + 1).drop_last() =~= specs@.subrange(0, i as int));
            }
            i = i + 1;
        }
        proof {
            assert(specs@.subrange(0, i as int) =~= specs@);
        }
    }

    /// Records object `value` with `uid` in bucket `name` as its mask allows.
    pub fn put(&mut self, name: &String, uid: String, value: Json)
        requires
            store_wf(old(self)@),
        ensures
            final(self)@ == put_store(old(self)@, name@, uid@, value@),
            store_wf(final(self)@),
    {
        let ghost old_view = self@;
        let ghost uid_v = uid@;
        let ghost value_v = value@;
        let i = self.bucket_index(name);
        let ghost mid = self@;
        proof {
            lemma_buckets_model(self.buckets@);
        }
        let (n, mut b) = self.buckets.remove(i);
        proof {
            assert(b@ == mid[i as int].1);
            assert(unique_keys(mid[i as int].1.data));
        }
        b.put(uid, value);
        let ghost nb = b@;
        self.buckets.insert(i, (n, b));
        proof {
            lemma_buckets_model(self.buckets@);
            assert(self@ =~= mid.update(i as int, (name@, nb)));
            assert forall|a: int, c: int|
                0 <= a < self@.len() && 0 <= c < self@.len() && self@[a].0 == self@[c].0 implies a == c by {
                assert(self@[a].0 == mid[a].0);
                assert(self@[c].0 == mid[c].0);
            }
            assert forall|j: int| 0 <= j < self@.len() implies unique_keys(#[trigger] self@[j].1.data) by {
                assert(unique_keys(mid[j].1.data));
            }
            if !has_key(old_view, name@) {
                assert(self@ =~= old_view.push((name@, nb)));
            }
        }
    }

    /// Removes `uid` from every bucket whose mask has `Delete`; says whether a bucket still
    /// holds it.
    pub fn drop_uid(&mut self, uid: &String) -> (still_stored: bool)
        requires
            store_wf(old(self)@),
        ensures
            final(self)@ == drop_store(old(self)@, uid@),
            still_stored == stored(final(self)@, uid@),
            store_wf(final(self)@),
    {
        let ghost old_view = self@;
        proof {
            lemma_buckets_model(self.buckets@);
        }
        let mut still = false;
        let mut i: usize = 0;
        while i < self.buckets.len()
            invariant
                i <= self.buckets@.len(),
                self.buckets@.len() == old_view.len(),
                self@.len() == old_view.len(),
                store_wf(old_view),
                forall|j: int| 0 <= j < i ==> #[trigger] self@[j] == drop_store(old_view, uid@)[j],
                forall|j: int| i <= j < old_view.len() ==> #[trigger] self@[j] == old_view[j],
                still == exists|j: int| 0 <= j < i && has_key(#[trigger] self@[j].1.data, uid@),
            decreases old_view.len() - i,
        {
            let ghost before = self@;
            proof {
                lemma_buckets_model(self.buckets@);
                assert(self@[i as int] == old_view[i as int]);
                assert(self.buckets@[i as int].1@ == old_view[i as int].1);
            }
            let (n, mut b) = self.buckets.remove(i);
            b.drop_uid(uid);
            let found = find_entry(&b.data, uid).is_some();
            let ghost nb = b@;
            self.buckets.insert(i, (n, b));
            proof {
                lemma_buckets_model(self.buckets@);
                assert(self@ =~= before.update(i as int, (before[i as int].0, nb)));
                assert(self@[i as int] == drop_store(old_view, uid@)[i as int]);
                if found {
                    assert(has_key(self@[i as int].1.data, uid@));
                }
                if still {
                    let w = choose|j: int| 0 <= j < i && has_key(#[trigger] before[j].1.data, uid@);
                    assert(self@[w] == before[w]);
                    assert(has_key(self@[w].1.data, uid@));
                }
                if !still && !found {
                    assert forall|j: int| 0 <= j < i + 1 implies !has_key(#[trigger] self@[j].1.data, uid@) by {
                        if j < i {
                            assert(self@[j] == before[j]);
                        }
                    }
                }
            }
            still = still || found;
            i = i + 1;
        }
        proof {
            assert(self@ =~= drop_store(old_view, uid@));
            let ns = self@;
            assert forall|a: int, c: int|
                0 <= a < ns.len() && 0 <= c < ns.len() && ns[a].0 == ns[c].0 implies a == c by {
                assert(ns[a].0 == old_view[a].0);
                assert(ns[c].0 == old_view[c].0);
            }
            assert forall|j: int| 0 <= j < ns.len() implies unique_keys(#[trigger] ns[j].1.data) by {
                lemma_drop_unique(old_view[j].1.data, uid@, old_view[j].1.ops);
            }
        }
        still
    }

    /// Whether an observed object must first get the finalizer: it is held nowhere yet,
    /// is not being deleted, and lacks the finalizer.
    pub fn needs_finalizer(&self, uid: &String, deleting: bool, has_finalizer: bool) -> (r: bool)
        ensures
            r == (!stored(self@, uid@) && !deleting && !has_finalizer),
    {
        !deleting && !has_finalizer && !self.contains(uid)
    }

    /// Reflects an observed object (`uid`, its JSON form `value`) into bucket `name`.
    /// An object being deleted is dropped from the buckets whose mask has `Delete`; the
    /// result says whether its finalizer is now to be cleared (it has the finalizer and no
    /// bucket holds it any more). Any other object is recorded as the bucket's mask allows.
    pub fn observe(
        &mut self,
        name: &String,
        uid: String,
        value: Json,
        deleting: bool,
        has_finalizer: bool,
    ) -> (clear_finalizer: bool)
        requires
            store_wf(old(self)@),
        ensures
            store_wf(final(self)@),
            deleting ==> final(self)@ == (if stored(old(self)@, uid@) {
                drop_store(old(self)@, uid@)
            } else {
                old(self)@
            }),
            deleting ==> clear_finalizer == (has_finalizer && !stored(final(self)@, uid@)),
            !deleting ==> final(self)@ == put_store(old(self)@, name@, uid@, value@),
            !deleting ==> !clear_finalizer,
    {
        if deleting {
            let mut is_stored = self.contains(&uid);
            if is_stored {
                is_stored = self.drop_uid(&uid);
            }
            has_finalizer && !is_stored
        } else {
            self.put(name, uid, value);
            false
        }
    }

    /// Copies of the objects in bucket `name` (none where there is no such bucket).
    pub fn snapshot(&self, name: &String) -> (r: Vec<Json>)
        requires
            store_wf(self@),
        ensures
            crate::json::items_model(r@) == values_of(bucket_or_default(self@, name@).data),
    {
        proof {
            lemma_buckets_model(self.buckets@);
        }
        match find_bucket(&self.buckets, name) {
            None => {
                let r: Vec<Json> = Vec::new();
                proof {
                    assert(crate::json::items_model(r@) =~= values_of(default_bucket().data));
                }
                r
            },
            Some(i) => {
                let data = &self.buckets[i].1.data;
                proof {
                    lemma_entries_model(data@);
                    assert(self@[i as int].1 == self.buckets@[i as int].1@);
                    lemma_key_at_unique(self@, name@, i as int);
                }
                let mut r: Vec<Json> = Vec::new();
                let mut k: usize = 0;
                while k < data.len()
                    invariant
                        k <= data@.len(),
                        r@.len() == k,
                        forall|j: int| 0 <= j < k ==> #[trigger] r@[j]@ == data@[j].1@,
                    decreases data@.len() - k,
                {
                    r.push(data[k].1.deep_copy());
                    k = k + 1;
                }
                proof {
                    crate::json::lemma_items_model(r@);
                    lemma_entries_model(data@);
                    assert forall|j: int| 0 <= j < r@.len() implies crate::json::items_model(r@)[j]
                        == values_of(entries_model(data@))[j] by {
                        assert(r@[j]@ == data@[j].1@);
                    }
                    assert(crate::json::items_model(r@) =~= values_of(entries_model(data@)));
                }
                r
            },
        }
    }

    /// Every uid still held, with the last object recorded for it, bucket by bucket.
    pub fn all_uids_with_obj(&self) -> (r: Vec<(String, Json)>)
        ensures
            entries_model(r@) == all_entries(self@),
    {
        proof {
            lemma_buckets_model(self.buckets@);
        }
        let mut r: Vec<(String, Json)> = Vec::new();
        let mut i: usize = 0;
        proof {
            lemma_entries_model(r@);
            assert(entries_model(r@) =~= all_entries(self@.subrange(0, 0)));
        }
        while i < self.buckets.len()
            invariant
                i <= self.buckets@.len(),
                self@.len() == self.buckets@.len(),
                forall|j: int| 0 <= j < self.buckets@.len() ==> #[trigger] self@[j] == (
                    self.buckets@[j].0@,
                    self.buckets@[j].1@,
                ),
                entries_model(r@) == all_entries(self@.subrange(0, i as int)),
            decreases self.buckets@.len() - i,
        {
            let data = &self.buckets[i].1.data;
            let ghost start = entries_model(r@);
            let mut k: usize = 0;
            proof {
                lemma_entries_model(data@);
                lemma_entries_model(r@);
            }
            while k < data.len()
                invariant
                    k <= data@.len(),
                    entries_model(r@) == start + entries_model(data@).subrange(0, k as int),
                decreases data@.len() - k,
            {
                let ghost before = r@;
                r.push((data[k].0.clone(), data[k].1.deep_copy()));
                proof {
                    assert(r@.drop_last() =~= before);
                    lemma_entries_model(data@);
                    assert(entries_model(r@) =~= start + entries_model(data@).subrange(0, k + 1));
                }
                k = k + 1;
            }
            proof {
                assert(entries_model(data@).subrange(0, k as int) =~= entries_model(data@));
                assert(self@.subrange(0, i + 1).drop_last() =~= self@.subrange(0, i as int));
                assert(self@[i as int].1.data == entries_model(data@));
            }
            i = i + 1;
        }
        proof {
            assert(self@.subrange(0, i as int) =~= self@);
        }
        r
    }
}

proof fn lemma_drop_unique(es: Seq<(Seq<char>, JsonModel)>, uid: Seq<char>, ops: Set<BucketOperation>)
    requires
        unique_keys(es),
    ensures
        unique_keys(drop_spec(es, uid, ops)),
{
    if has_key(es, uid) && ops.contains(BucketOperation::Delete) {
        let c = choose|i: int| key_at(es, uid, i);
        let ns = es.remove(c);
        assert forall|a: int, b: int|
            0 <= a < ns.len() && 0 <= b < ns.len() && ns[a].0 == ns[b].0 implies a == b by {
            let a2 = if a < c { a } else { a + 1 };
            let b2 = if b < c { b } else { b + 1 };
            assert(ns[a] == es[a2]);
            assert(ns[b] == es[b2]);
        }
    }
}

/// The merge patch that adds the finalizer (`add`) or clears all finalizers.
pub open spec fn finalizer_patch_spec(add: bool) -> JsonModel {
    JsonModel::Object(
        seq![
            (
                "metadata"@,
                JsonModel::Object(
                    seq![
                        (
                            "finalizers"@,
                            if add {
                                JsonModel::Array(seq![JsonModel::Str("blackjack.io/finalizer"@)])
                            } else {
                                JsonModel::Null
                            },
                        ),
                    ],
                ),
            ),
        ],
    )
}

/// The merge patch that adds the finalizer (`add`) or clears all finalizers.
pub fn finalizer_patch(add: bool) -> (r: Json)
    ensures
        r@ == finalizer_patch_spec(add),
{
    let value = if add {
        let items = vec![Json::String(finalizer_name())];
        proof {
            lemma_items_model(items@);
            assert(items_model(items@) =~= seq![JsonModel::Str("blackjack.io/finalizer"@)]);
        }
        Json::Array(items)
    } else {
        Json::Null
    };
    let inner = vec![(String::from_str("finalizers"), value)];
    proof {
        lemma_entries_model(inner@);
    }
    let inner_json = Json::Object(inner);
    proof {
        assert(entries_model(inner@) =~= seq![("finalizers"@, value@)]);
    }
    let outer = vec![(String::from_str("metadata"), inner_json)];
    proof {
        lemma_entries_model(outer@);
        assert(entries_model(outer@) =~= seq![("metadata"@, inner_json@)]);
    }
    Json::Object(outer)
}

/// A selector entry `key=value`.
pub open spec fn pair_text(p: (Seq<char>, Seq<char>)) -> Seq<char> {
    p.0 + "="@ + p.1
}

/// Selector entries joined by `,`.
pub open spec fn selector_text(ps: Seq<(Seq<char>, Seq<char>)>) -> Seq<char>
    decreases ps.len(),
{
    if ps.len() == 0 {
        Seq::empty()
    } else if ps.len() == 1 {
        pair_text(ps.last())
    } else {
        selector_text(ps.drop_last()) + ","@ + pair_text(ps.last())
    }
}

pub open spec fn pairs_model(ps: Seq<(String, String)>) -> Seq<(Seq<char>, Seq<char>)> {
    Seq::new(ps.len(), |i: int| (ps[i].0@, ps[i].1@))
}

/// The label or field selector of a watch: `k1=v1,k2=v2`, empty where there is none.
pub fn selector(pairs: &Option<Vec<(String, String)>>) -> (r: String)
    ensures
        r@ == match pairs {
            Some(ps) => selector_text(pairs_model(ps@)),
            None => Seq::empty(),
        },
{
    let mut r = String::new();
    match pairs {
        None => {},
        Some(ps) => {
            let mut i: usize = 0;
            proof {
                assert(pairs_model(ps@).subrange(0, 0) =~= Seq::<(Seq<char>, Seq<char>)>::empty());
            }
            while i < ps.len()
                invariant
                    i <= ps@.len(),
                    r@ == selector_text(pairs_model(ps@).subrange(0, i as int)),
                decreases ps@.len() - i,
            {
                if i > 0 {
                    r.append(",");
                }
                r.append(ps[i].0.as_str());
                r.append("=");
                r.append(ps[i].1.as_str());
                proof {
                    let p = pairs_model(ps@).subrange(0, i + 1);
                    assert(p.drop_last() =~= pairs_model(ps@).subrange(0, i as int));
                }
                i = i + 1;
            }
            proof {
                assert(pairs_model(ps@).subrange(0, i as int) =~= pairs_model(ps@));
            }
        },
    }
    r
}

/// After `with_bucket`, the bucket `name` is the one given.
proof fn lemma_with_bucket(bs: Seq<(Seq<char>, BucketModel)>, name: Seq<char>, b: BucketModel)
    requires
        unique_keys(bs),
    ensures
        has_key(with_bucket(bs, name, b), name),
        unique_keys(with_bucket(bs, name, b)),
        bucket_or_default(with_bucket(bs, name, b), name) == b,
{
    let nb = with_bucket(bs, name, b);
    if has_key(bs, name) {
        let c = choose|i: int| key_at(bs, name, i);
        assert(key_at(bs, name, c));
        assert(key_at(nb, name, c));
        assert forall|a: int, d: int| 0 <= a < nb.len() && 0 <= d < nb.len() && nb[a].0 == nb[d].0 implies a
            == d by {
            assert(nb[a].0 == bs[a].0);
            assert(nb[d].0 == bs[d].0);
        }
        lemma_key_at_unique(nb, name, c);
    } else {
        let last = bs.len() as int;
        assert(key_at(nb, name, last));
        assert forall|a: int, d: int| 0 <= a < nb.len() && 0 <= d < nb.len() && nb[a].0 == nb[d].0 implies a
            == d by {
            if a < last && d == last {
                assert(key_at(bs, name, a));
            }
            if d < last && a == last {
                assert(key_at(bs, name, d));
            }
        }
        lemma_key_at_unique(nb, name, last);
    }
}

/// A new object observed for a bucket that records creations is then held by that bucket,
/// under its uid, as the JSON form that was observed.
pub proof fn lemma_create_recorded(
    bs: Seq<(Seq<char>, BucketModel)>,
    name: Seq<char>,
    uid: Seq<char>,
    v: JsonModel,
)
    requires
        store_wf(bs),
        !has_key(bucket_or_default(bs, name).data, uid),
        bucket_or_default(bs, name).ops.contains(BucketOperation::Create),
    ensures
        has_key(bucket_or_default(put_store(bs, name, uid, v), name).data, uid),
        value_at(bucket_or_default(put_store(bs, name, uid, v), name).data, uid) == v,
{
    let b = bucket_or_default(bs, name);
    let nd = put_spec(b.data, uid, v, b.ops);
    lemma_with_bucket(bs, name, BucketModel { ops: b.ops, data: nd });
    assert(nd == b.data.push((uid, v)));
    let last = b.data.len() as int;
    assert(key_at(nd, uid, last));
    assert forall|j: int| #![trigger nd[j]] 0 <= j < nd.len() && nd[j].0 == uid implies j == last by {
        if j < last {
            assert(key_at(b.data, uid, j));
        }
    }
    let c = choose|j: int| key_at(nd, uid, j);
    assert(key_at(nd, uid, c));
}

/// A change to an object a bucket holds: without `Patch` in the mask the bucket keeps what it
/// had; with `Patch` it holds the changed object.
pub proof fn lemma_patch_gated(
    bs: Seq<(Seq<char>, BucketModel)>,
    name: Seq<char>,
    uid: Seq<char>,
    v: JsonModel,
)
    requires
        store_wf(bs),
        has_key(bucket_or_default(bs, name).data, uid),
    ensures
        !bucket_or_default(bs, name).ops.contains(BucketOperation::Patch) ==> bucket_or_default(
            put_store(bs, name, uid, v),
            name,
        ).data == bucket_or_default(bs, name).data,
        bucket_or_default(bs, name).ops.contains(BucketOperation::Patch) ==> value_at(
            bucket_or_default(put_store(bs, name, uid, v), name).data,
            uid,
        ) == v,
{
    let b = bucket_or_default(bs, name);
    let nd = put_spec(b.data, uid, v, b.ops);
    lemma_with_bucket(bs, name, BucketModel { ops: b.ops, data: nd });
    if b.ops.contains(BucketOperation::Patch) {
        let c = choose|j: int| key_at(b.data, uid, j);
        assert(key_at(b.data, uid, c));
        assert(key_at(nd, uid, c));
        if has_key(bs, name) {
            let bi = choose|i: int| key_at(bs, name, i);
            assert(key_at(bs, name, bi));
            assert(unique_keys(bs[bi].1.data));
        }
        assert(unique_keys(b.data));
        assert forall|j: int| #![trigger nd[j]] 0 <= j < nd.len() && nd[j].0 == uid implies j == c by {
            assert(nd[j].0 == b.data[j].0);
        }
        let d = choose|j: int| key_at(nd, uid, j);
        assert(key_at(nd, uid, d));
    }
}

/// An object being deleted stays in every bucket that holds it and lacks `Delete`, so it is
/// still held; it leaves every bucket that has `Delete`; and where every bucket holding it
/// has `Delete`, no bucket holds it any more.
pub proof fn lemma_delete_gated(bs: Seq<(Seq<char>, BucketModel)>, uid: Seq<char>)
    requires
        store_wf(bs),
    ensures
        forall|i: int|
            0 <= i < bs.len() && !bs[i].1.ops.contains(BucketOperation::Delete) && has_key(
                bs[i].1.data,
                uid,
            ) ==> has_key(#[trigger] drop_store(bs, uid)[i].1.data, uid) && stored(
                drop_store(bs, uid),
                uid,
            ),
        forall|i: int|
            0 <= i < bs.len() && bs[i].1.ops.contains(BucketOperation::Delete) ==> !has_key(
                #[trigger] drop_store(bs, uid)[i].1.data,
                uid,
            ),
        (forall|i: int|
            0 <= i < bs.len() && has_key(#[trigger] bs[i].1.data, uid) ==> bs[i].1.ops.contains(
                BucketOperation::Delete,
            )) ==> !stored(drop_store(bs, uid), uid),
{
    let ds = drop_store(bs, uid);
    assert forall|i: int| 0 <= i < bs.len() && bs[i].1.ops.contains(BucketOperation::Delete) implies !has_key(
        #[trigger] ds[i].1.data,
        uid,
    ) by {
        let es = bs[i].1.data;
        assert(unique_keys(es));
        if has_key(es, uid) {
            let c = choose|j: int| key_at(es, uid, j);
            assert(key_at(es, uid, c));
            let ns = es.remove(c);
            assert(ds[i].1.data == ns);
            if has_key(ns, uid) {
                let j = choose|j: int| key_at(ns, uid, j);
                assert(key_at(ns, uid, j));
                let j2 = if j < c { j } else { j + 1 };
                assert(ns[j] == es[j2]);
            }
        }
    }
    assert forall|i: int|
        0 <= i < bs.len() && !bs[i].1.ops.contains(BucketOperation::Delete) && has_key(bs[i].1.data, uid)
        implies has_key(#[trigger] ds[i].1.data, uid) && stored(ds, uid) by {
        assert(ds[i].1.data == bs[i].1.data);
    }
    if forall|i: int| 0 <= i < bs.len() && has_key(#[trigger] bs[i].1.data, uid) ==> bs[i].1.ops.contains(
        BucketOperation::Delete,
    ) {
        assert forall|i: int| 0 <= i < ds.len() implies !has_key(#[trigger] ds[i].1.data, uid) by {
            if has_key(bs[i].1.data, uid) {
                assert(bs[i].1.ops.contains(BucketOperation::Delete));
            } else {
                assert(ds[i].1.data == bs[i].1.data);
            }
        }
    }
}

} // verus!
