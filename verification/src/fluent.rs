//! Data model for forward-protocol log entries: field values, insertion-ordered
//! field maps, timestamped records, and batched messages.

use vstd::prelude::*;

verus! {

use vstd::pervasive::VecAdditionalExecFns;

broadcast use vstd::std_specs::vec::axiom_vec_index_decreases;

/// Log importance ranking; on the wire it is serialized as its name.
#[derive(Clone, Copy, PartialEq, Eq, Structural, Debug)]
pub enum Severity {
    Error,
    Warn,
    Info,
    Debug,
    Trace,
}

impl Severity {
    /// The name under which this level is serialized.
    pub open spec fn name(self) -> Seq<char> {
        match self {
            Severity::Error => "ERROR"@,
            Severity::Warn => "WARN"@,
            Severity::Info => "INFO"@,
            Severity::Debug => "DEBUG"@,
            Severity::Trace => "TRACE"@,
        }
    }

    pub fn as_str(&self) -> (r: &'static str)
        ensures
            r@ == self.name(),
    {
        match self {
            Severity::Error => "ERROR",
            Severity::Warn => "WARN",
            Severity::Info => "INFO",
            Severity::Debug => "DEBUG",
            Severity::Trace => "TRACE",
        }
    }
}

/// One field value of a record.
#[derive(Debug)]
pub enum Value {
    /// Boolean
    Bool(bool),
    /// Signed integer
    Int(i64),
    /// Unsigned integer
    Uint(u64),
    /// UTF-8 text
    Str(String),
    /// Log level, serialized as its name
    Severity(Severity),
    /// Nested map
    Object(FieldMap),
}

/// An associative container from string key to [`Value`].
///
/// Keys are unique and insertion order is preserved; the order determines the
/// serialized field order.
#[derive(Debug)]
pub struct FieldMap {
    pub entries: Vec<(String, Value)>,
}

/// Mathematical model of a [`Value`].
#[verifier::ext_equal]
pub enum ValueView {
    Bool(bool),
    Int(i64),
    Uint(u64),
    Str(Seq<char>),
    Severity(Severity),
    Object(Seq<(Seq<char>, ValueView)>),
}

/// Mathematical model of a [`FieldMap`]: key/value pairs in insertion order.
pub type FieldsView = Seq<(Seq<char>, ValueView)>;

pub open spec fn value_view(v: Value) -> ValueView
    decreases v,
{
    match v {
        Value::Bool(b) => ValueView::Bool(b),
        Value::Int(i) => ValueView::Int(i),
        Value::Uint(u) => ValueView::Uint(u),
        Value::Str(s) => ValueView::Str(s@),
        Value::Severity(l) => ValueView::Severity(l),
        Value::Object(m) => ValueView::Object(entries_view(m.entries@)),
    }
}

pub open spec fn entries_view(s: Seq<(String, Value)>) -> FieldsView
    decreases s,
{
    if s.len() == 0 {
        Seq::empty()
    } else {
        seq![(s[0].0@, value_view(s[0].1))] + entries_view(s.drop_first())
    }
}

/// `entries_view` maps each pair to its view, keeping length and order.
pub proof fn lemma_entries_view_index(s: Seq<(String, Value)>)
    ensures
        entries_view(s).len() == s.len(),
        forall|i: int|
            0 <= i < s.len() ==> entries_view(s)[i] == (s[i].0@, value_view(s[i].1)),
    decreases s.len(),
{
    if s.len() > 0 {
        lemma_entries_view_index(s.drop_first());
        assert forall|i: int| 0 <= i < s.len() implies entries_view(s)[i] == (
            s[i].0@,
            value_view(s[i].1),
        ) by {
            if i > 0 {
                assert(s.drop_first()[i - 1] == s[i]);
            }
        }
    }
}

impl View for Value {
    type V = ValueView;

    open spec fn view(&self) -> ValueView {
        value_view(*self)
    }
}

impl View for FieldMap {
    type V = FieldsView;

    open spec fn view(&self) -> FieldsView {
        entries_view(self.entries@)
    }
}

/// Whether some pair of `fv` carries the key `k`.
pub open spec fn fields_contain_key(fv: FieldsView, k: Seq<char>) -> bool {
    exists|i: int| 0 <= i < fv.len() && fv[i].0 == k
}

/// An index of `fv` holding the key `k` (unique when keys are unique).
pub open spec fn field_index_of(fv: FieldsView, k: Seq<char>) -> int {
    choose|i: int| 0 <= i < fv.len() && fv[i].0 == k
}

/// The value stored under `k`, if any.
pub open spec fn fields_get(fv: FieldsView, k: Seq<char>) -> Option<ValueView> {
    if fields_contain_key(fv, k) {
        Some(fv[field_index_of(fv, k)].1)
    } else {
        None
    }
}

/// No key occurs twice.
pub open spec fn keys_unique(fv: FieldsView) -> bool {
    forall|i: int, j: int| 0 <= i < j < fv.len() ==> fv[i].0 != fv[j].0
}

impl FieldMap {
    /// Well-formedness: keys are unique.
    pub open spec fn wf(self) -> bool {
        keys_unique(self@)
    }

    /// Creates a new empty map.
    pub fn new() -> (r: FieldMap)
        ensures
            r@ == Seq::<(Seq<char>, ValueView)>::empty(),
            r.wf(),
    {
        FieldMap { entries: Vec::new() }
    }

    /// Number of entries.
    pub fn len(&self) -> (n: usize)
        ensures
            n == self@.len(),
    {
        proof {
            lemma_entries_view_index(self.entries@);
        }
        self.entries.len()
    }

    /// Whether the map holds the key `k`.
    pub fn contains_key(&self, k: &str) -> (b: bool)
        ensures
            b == fields_contain_key(self@, k@),
    {
        proof {
            lemma_entries_view_index(self.entries@);
        }
        let key: String = k.to_owned();
        let n = self.entries.len();
        let mut i: usize = 0;
        while i < n
            invariant
                n == self.entries.len(),
                i <= n,
                key@ == k@,
                self@.len() == n,
                forall|j: int|
                    0 <= j < n ==> self@[j] == (
                        self.entries@[j].0@,
                        value_view(self.entries@[j].1),
                    ),
                forall|j: int| 0 <= j < i ==> self@[j].0 != k@,
            decreases n - i,
        {
            if self.entries[i].0.eq(&key) {
                assert(self@[i as int].0 == k@);
                return true;
            }
            i += 1;
        }
        false
    }

    /// Looks the key `k` up and returns a reference to its value, if present.
    pub fn get(&self, k: &str) -> (r: Option<&Value>)
        requires
            self.wf(),
        ensures
            match r {
                Some(v) => fields_get(self@, k@) == Some(v@),
                None => fields_get(self@, k@) is None,
            },
    {
        proof {
            lemma_entries_view_index(self.entries@);
        }
        let key: String = k.to_owned();
        let n = self.entries.len();
        let mut i: usize = 0;
        while i < n
            invariant
                n == self.entries.len(),
                i <= n,
                key@ == k@,
                self.wf(),
                self@.len() == n,
                forall|j: int|
                    0 <= j < n ==> self@[j] == (
                        self.entries@[j].0@,
                        value_view(self.entries@[j].1),
                    ),
                forall|j: int| 0 <= j < i ==> self@[j].0 != k@,
            decreases n - i,
        {
            if self.entries[i].0.eq(&key) {
                proof {
                    assert(self@[i as int].0 == k@);
                    let j = field_index_of(self@, k@);
                    if j != i {
                        assert(self@[j].0 == self@[i as int].0);
                        assert(false);
                    }
                }
                return Some(&self.entries[i].1);
            }
            i += 1;
        }
        None
    }

    /// Inserts `v` under `k`. An existing entry keeps its position and gets
    /// the new value; a new key is appended at the end.
    pub fn insert(&mut self, k: String, v: Value)
        requires
            old(self).wf(),
        ensures
            final(self).wf(),
            fields_contain_key(old(self)@, k@) ==> final(self)@ == old(self)@.update(
                field_index_of(old(self)@, k@),
                (k@, value_view(v)),
            ),
            !fields_contain_key(old(self)@, k@) ==> final(self)@ == old(self)@.push(
                (k@, value_view(v)),
            ),
    {
        proof {
            lemma_entries_view_index(self.entries@);
        }
        let n = self.entries.len();
        let mut i: usize = 0;
        while i < n
            invariant
                *self == *old(self),
                n == self.entries.len(),
                i <= n,
                self.wf(),
                self@.len() == n,
                forall|j: int|
                    0 <= j < n ==> self@[j] == (
                        self.entries@[j].0@,
                        value_view(self.entries@[j].1),
                    ),
                forall|j: int| 0 <= j < i ==> self@[j].0 != k@,
            decreases n - i,
        {
            if self.entries[i].0.eq(&k) {
                proof {
                    assert(self@[i as int].0 == k@);
                    let j = field_index_of(self@, k@);
                    if j != i {
                        assert(self@[j].0 == self@[i as int].0);
                        assert(false);
                    }
                }
                let ghost old_view = self@;
                let ghost old_entries = self.entries@;
                self.entries.set(i, (k, v));
                proof {
                    lemma_entries_view_index(old_entries);
                    lemma_entries_view_index(self.entries@);
                    assert(self@ =~= old_view.update(i as int, (k@, value_view(v))));
                    assert forall|m: int, m2: int|
                        0 <= m < m2 < self@.len() implies self@[m].0 != self@[m2].0 by {
                        assert(self@[m].0 == old_view[m].0);
                        assert(self@[m2].0 == old_view[m2].0);
                    }
                }
                return ;
            }
            i += 1;
        }
        let ghost old_view = self@;
        let ghost old_entries = self.entries@;
        self.entries.push((k, v));
        proof {
            lemma_entries_view_index(old_entries);
            lemma_entries_view_index(self.entries@);
            assert(self@ =~= old_view.push((k@, value_view(v))));
            assert forall|m: int, m2: int|
                0 <= m < m2 < self@.len() implies self@[m].0 != self@[m2].0 by {
                if m2 < old_view.len() {
                    assert(old_view[m].0 != old_view[m2].0);
                } else {
                    assert(self@[m2].0 == k@);
                    assert(old_view[m].0 != k@);
                }
            }
        }
    }
}

/// Merge of `b` into `a` where the first writer wins: pairs of `b` whose key
/// already stands in the accumulated map are dropped, the others are appended
/// in `b`'s order.
pub open spec fn merge_keep(a: FieldsView, b: FieldsView) -> FieldsView
    decreases b.len(),
{
    if b.len() == 0 {
        a
    } else if fields_contain_key(a, b[0].0) {
        merge_keep(a, b.drop_first())
    } else {
        merge_keep(a.push(b[0]), b.drop_first())
    }
}

pub proof fn lemma_contains_push(fv: FieldsView, p: (Seq<char>, ValueView), k: Seq<char>)
    ensures
        fields_contain_key(fv.push(p), k) <==> (fields_contain_key(fv, k) || p.0 == k),
{
    if fields_contain_key(fv.push(p), k) {
        let i = choose|i: int| 0 <= i < fv.push(p).len() && fv.push(p)[i].0 == k;
        if i < fv.len() {
            assert(fv[i].0 == k);
        }
    }
    if fields_contain_key(fv, k) {
        let i = choose|i: int| 0 <= i < fv.len() && fv[i].0 == k;
        assert(fv.push(p)[i].0 == k);
    }
    if p.0 == k {
        assert(fv.push(p)[fv.len() as int].0 == k);
    }
}

pub proof fn lemma_contains_drop_first(fv: FieldsView, k: Seq<char>)
    requires
        fv.len() > 0,
    ensures
        fields_contain_key(fv, k) <==> (fv[0].0 == k || fields_contain_key(fv.drop_first(), k)),
{
    if fields_contain_key(fv, k) {
        let i = choose|i: int| 0 <= i < fv.len() && fv[i].0 == k;
        if i > 0 {
            assert(fv.drop_first()[i - 1].0 == k);
        }
    }
    if fields_contain_key(fv.drop_first(), k) {
        let i = choose|i: int| 0 <= i < fv.drop_first().len() && fv.drop_first()[i].0 == k;
        assert(fv[i + 1].0 == k);
    }
}

/// The merged map holds exactly the keys of both operands.
pub proof fn lemma_merge_keep_contains(a: FieldsView, b: FieldsView, k: Seq<char>)
    ensures
        fields_contain_key(merge_keep(a, b), k) <==> (fields_contain_key(a, k)
            || fields_contain_key(b, k)),
    decreases b.len(),
{
    if b.len() > 0 {
        lemma_contains_drop_first(b, k);
        if fields_contain_key(a, b[0].0) {
            lemma_merge_keep_contains(a, b.drop_first(), k);
        } else {
            lemma_merge_keep_contains(a.push(b[0]), b.drop_first(), k);
            lemma_contains_push(a, b[0], k);
        }
    }
}

/// Appending one pair to the second operand either changes nothing (key taken)
/// or appends that pair at the end.
pub proof fn lemma_merge_keep_snoc(a: FieldsView, s: FieldsView, p: (Seq<char>, ValueView))
    ensures
        fields_contain_key(merge_keep(a, s), p.0) ==> merge_keep(a, s.push(p)) == merge_keep(a, s),
        !fields_contain_key(merge_keep(a, s), p.0) ==> merge_keep(a, s.push(p)) == merge_keep(
            a,
            s,
        ).push(p),
    decreases s.len(),
{
    lemma_merge_keep_contains(a, s, p.0);
    if s.len() == 0 {
        assert(s.push(p)[0] == p);
        assert(s.push(p).drop_first() =~= s);
        assert(merge_keep(a, s) == a);
        assert(merge_keep(a.push(p), s) == a.push(p));
    } else {
        assert(s.push(p)[0] == s[0]);
        assert(s.push(p).drop_first() =~= s.drop_first().push(p));
        if fields_contain_key(a, s[0].0) {
            lemma_merge_keep_snoc(a, s.drop_first(), p);
        } else {
            lemma_merge_keep_snoc(a.push(s[0]), s.drop_first(), p);
        }
    }
}

pub proof fn lemma_get_push_new(fv: FieldsView, q: (Seq<char>, ValueView))
    requires
        !fields_contain_key(fv, q.0),
    ensures
        fields_get(fv.push(q), q.0) == Some(q.1),
{
    assert(fv.push(q)[fv.len() as int] == q);
    let i = field_index_of(fv.push(q), q.0);
    assert(0 <= i < fv.push(q).len() && fv.push(q)[i].0 == q.0);
    if i < fv.len() {
        assert(fv[i].0 == q.0);
        assert(false);
    }
}

pub proof fn lemma_get_push_other(fv: FieldsView, q: (Seq<char>, ValueView), k: Seq<char>)
    requires
        keys_unique(fv),
        k != q.0,
    ensures
        fields_get(fv.push(q), k) == fields_get(fv, k),
{
    lemma_contains_push(fv, q, k);
    if fields_contain_key(fv, k) {
        let i = field_index_of(fv, k);
        assert(0 <= i < fv.len() && fv[i].0 == k);
        assert(fv.push(q)[i].0 == k);
        let j = field_index_of(fv.push(q), k);
        assert(0 <= j < fv.push(q).len() && fv.push(q)[j].0 == k);
        if j == fv.len() {
            assert(false);
        }
        assert(fv[j].0 == k);
        if i != j {
            assert(false);
        }
    }
}

/// Merging never breaks key uniqueness of the accumulated map.
pub proof fn lemma_merge_keep_unique(a: FieldsView, b: FieldsView)
    requires
        keys_unique(a),
    ensures
        keys_unique(merge_keep(a, b)),
    decreases b.len(),
{
    if b.len() > 0 {
        if fields_contain_key(a, b[0].0) {
            lemma_merge_keep_unique(a, b.drop_first());
        } else {
            assert forall|i: int, j: int|
                0 <= i < j < a.push(b[0]).len() implies a.push(b[0])[i].0 != a.push(b[0])[j].0 by {
                if j < a.len() {
                    assert(a[i].0 != a[j].0);
                } else {
                    assert(a.push(b[0])[j].0 == b[0].0);
                    assert(a.push(b[0])[i].0 == a[i].0);
                }
            }
            lemma_merge_keep_unique(a.push(b[0]), b.drop_first());
        }
    }
}

/// First writer wins: merging `b` into `a` leaves every pair of `a` at its
/// position with its value, and appends exactly those pairs of `b` whose key
/// is new, in `b`'s order. Keys present in `a` keep `a`'s value; keys only in
/// `b` get `b`'s value.
pub proof fn lemma_merge_no_overwrite(a: FieldsView, b: FieldsView)
    requires
        keys_unique(a),
        keys_unique(b),
    ensures
        merge_keep(a, b) == a + b.filter(|p: (Seq<char>, ValueView)| !fields_contain_key(a, p.0)),
        keys_unique(merge_keep(a, b)),
        forall|k: Seq<char>|
            fields_contain_key(a, k) ==> fields_get(merge_keep(a, b), k) == fields_get(a, k),
        forall|k: Seq<char>|
            !fields_contain_key(a, k) && fields_contain_key(b, k) ==> fields_get(
                merge_keep(a, b),
                k,
            ) == fields_get(b, k),
    decreases b.len(),
{
    reveal(Seq::filter);
    let pred = |p: (Seq<char>, ValueView)| !fields_contain_key(a, p.0);
    lemma_merge_keep_unique(a, b);
    if b.len() == 0 {
        assert(a + b.filter(pred) =~= a);
    } else {
        let bp = b.drop_last();
        let q = b.last();
        assert(keys_unique(bp));
        lemma_merge_no_overwrite(a, bp);
        assert(bp.push(q) =~= b);
        lemma_merge_keep_snoc(a, bp, q);
        lemma_merge_keep_contains(a, bp, q.0);
        // the last pair's key cannot recur earlier in b
        assert(!fields_contain_key(bp, q.0)) by {
            if fields_contain_key(bp, q.0) {
                let i = choose|i: int| 0 <= i < bp.len() && bp[i].0 == q.0;
                assert(b[i].0 == b[b.len() - 1].0);
                assert(false);
            }
        }
        let m0 = merge_keep(a, bp);
        let m = merge_keep(a, b);
        lemma_merge_keep_unique(a, bp);
        assert(b.filter(pred) == if pred(q) {
            bp.filter(pred).push(q)
        } else {
            bp.filter(pred)
        });
        if fields_contain_key(a, q.0) {
            assert(m == m0);
            assert(m =~= a + b.filter(pred));
        } else {
            assert(m == m0.push(q));
            assert((a + bp.filter(pred)).push(q) =~= a + bp.filter(pred).push(q));
            assert(m =~= a + b.filter(pred));
        }
        // value lookups
        assert forall|k: Seq<char>|
            fields_contain_key(a, k) implies fields_get(m, k) == fields_get(a, k) by {
            if !fields_contain_key(a, q.0) {
                assert(k != q.0);
                lemma_get_push_other(m0, q, k);
            }
        }
        assert forall|k: Seq<char>|
            !fields_contain_key(a, k) && fields_contain_key(b, k) implies fields_get(m, k)
            == fields_get(b, k) by {
            lemma_contains_push(bp, q, k);
            if k == q.0 {
                assert(!fields_contain_key(m0, q.0));
                lemma_get_push_new(m0, q);
                lemma_get_push_new(bp, q);
            } else {
                assert(fields_contain_key(bp, k));
                lemma_get_push_other(bp, q, k);
                if !fields_contain_key(a, q.0) {
                    lemma_get_push_other(m0, q, k);
                }
            }
        }
    }
}

impl FieldMap {
    /// Merges `other`'s entries into `self`, never overwriting an existing
    /// key: the first writer wins, and new keys append in `other`'s order.
    pub fn update(&mut self, other: &FieldMap)
        requires
            old(self).wf(),
        ensures
            final(self).wf(),
            final(self)@ == merge_keep(old(self)@, other@),
    {
        proof {
            lemma_entries_view_index(other.entries@);
        }
        let n = other.entries.len();
        let mut i: usize = 0;
        while i < n
            invariant
                n == other.entries.len(),
                i <= n,
                self.wf(),
                other@.len() == n,
                forall|j: int|
                    0 <= j < n ==> other@[j] == (
                        other.entries@[j].0@,
                        value_view(other.entries@[j].1),
                    ),
                self@ == merge_keep(old(self)@, other@.take(i as int)),
            decreases n - i,
        {
            proof {
                lemma_merge_keep_snoc(old(self)@, other@.take(i as int), other@[i as int]);
                assert(other@.take(i as int + 1) =~= other@.take(i as int).push(
                    other@[i as int],
                ));
            }
            let pair = &other.entries[i];
            let key_ref = pair.0.as_str();
            if !self.contains_key(key_ref) {
                let cloned_key = pair.0.clone();
                let cloned_value = pair.1.clone();
                self.insert(cloned_key, cloned_value);
            }
            i += 1;
        }
        proof {
            assert(other@.take(n as int) =~= other@);
        }
    }
}

/// Relies on `std::time::SystemTime::now` and `duration_since(UNIX_EPOCH)`:
/// yields the wall-clock time as whole seconds plus sub-second nanoseconds
/// (`Duration::subsec_nanos` is documented to be below one billion), or
/// nothing when the clock reads before the epoch.
#[verifier::external_body]
fn unix_time_now() -> (r: Option<(u64, u32)>)
    ensures
        r matches Some(t) ==> t.1 < 1_000_000_000,
{
    match std::time::SystemTime::now().duration_since(std::time::SystemTime::UNIX_EPOCH) {
        Ok(d) => Some((d.as_secs(), d.subsec_nanos())),
        Err(_) => None,
    }
}

/// One log entry: a creation timestamp and a map of fields.
#[derive(Debug)]
pub struct Record {
    pub secs: u64,
    pub nanos: u32,
    pub entries: FieldMap,
}

/// Mathematical model of a [`Record`].
#[verifier::ext_equal]
pub struct RecordView {
    pub secs: u64,
    pub nanos: u32,
    pub entries: FieldsView,
}

impl View for Record {
    type V = RecordView;

    open spec fn view(&self) -> RecordView {
        RecordView { secs: self.secs, nanos: self.nanos, entries: self.entries@ }
    }
}

/// Well-formedness of a record model: nanoseconds below one billion, keys
/// unique.
pub open spec fn record_view_wf(r: RecordView) -> bool {
    &&& r.nanos < 1_000_000_000
    &&& keys_unique(r.entries)
}

impl Record {
    pub open spec fn wf(self) -> bool {
        record_view_wf(self@)
    }

    /// Creates an empty record carrying the given timestamp.
    pub fn with_timestamp(secs: u64, nanos: u32) -> (r: Record)
        requires
            nanos < 1_000_000_000,
        ensures
            r@.secs == secs,
            r@.nanos == nanos,
            r@.entries == Seq::<(Seq<char>, ValueView)>::empty(),
            r.wf(),
    {
        Record { secs, nanos, entries: FieldMap::new() }
    }

    /// Creates an empty record stamped with the current wall-clock time, or
    /// nothing when the system clock reads before the epoch.
    pub fn now() -> (r: Option<Record>)
        ensures
            r matches Some(rec) ==> rec.wf() && rec@.entries == Seq::<(
                Seq<char>,
                ValueView,
            )>::empty(),
    {
        match unix_time_now() {
            Some((secs, nanos)) => Some(Record::with_timestamp(secs, nanos)),
            None => None,
        }
    }

    /// Inserts `v` under `k` into the record's fields.
    pub fn insert(&mut self, k: String, v: Value)
        requires
            old(self).wf(),
        ensures
            final(self).wf(),
            final(self)@.secs == old(self)@.secs,
            final(self)@.nanos == old(self)@.nanos,
            fields_contain_key(old(self)@.entries, k@) ==> final(self)@.entries == old(
                self,
            )@.entries.update(field_index_of(old(self)@.entries, k@), (k@, value_view(v))),
            !fields_contain_key(old(self)@.entries, k@) ==> final(self)@.entries == old(
                self,
            )@.entries.push((k@, value_view(v))),
    {
        self.entries.insert(k, v);
    }

    /// Whether the record's fields hold the key `k`.
    pub fn contains_key(&self, k: &str) -> (b: bool)
        ensures
            b == fields_contain_key(self@.entries, k@),
    {
        self.entries.contains_key(k)
    }

    /// Looks the key `k` up among the record's fields.
    pub fn get(&self, k: &str) -> (r: Option<&Value>)
        requires
            self.wf(),
        ensures
            match r {
                Some(v) => fields_get(self@.entries, k@) == Some(v@),
                None => fields_get(self@.entries, k@) is None,
            },
    {
        self.entries.get(k)
    }

    /// Merges `other` into the record's fields without overwriting existing
    /// keys: the first writer wins.
    pub fn update(&mut self, other: &FieldMap)
        requires
            old(self).wf(),
        ensures
            final(self).wf(),
            final(self)@.secs == old(self)@.secs,
            final(self)@.nanos == old(self)@.nanos,
            final(self)@.entries == merge_keep(old(self)@.entries, other@),
    {
        self.entries.update(other);
    }
}

/// One forward-mode batch: a tag, the collected records, and a running count.
#[derive(Debug)]
pub struct Message {
    pub tag: &'static str,
    pub entries: Vec<Record>,
    pub size: usize,
}

/// Mathematical model of a [`Message`].
#[verifier::ext_equal]
pub struct MessageView {
    pub tag: Seq<char>,
    pub records: Seq<RecordView>,
}

impl View for Message {
    type V = MessageView;

    open spec fn view(&self) -> MessageView {
        MessageView {
            tag: self.tag@,
            records: Seq::new(self.entries@.len(), |i: int| self.entries@[i]@),
        }
    }
}

impl Message {
    /// Well-formedness: the running count equals the number of records, and
    /// every record is well formed.
    pub open spec fn wf(self) -> bool {
        &&& self.size == self.entries@.len()
        &&& forall|i: int| 0 <= i < self@.records.len() ==> record_view_wf(self@.records[i])
    }

    /// Creates an empty message with the given tag.
    pub fn new(tag: &'static str) -> (m: Message)
        ensures
            m@.tag == tag@,
            m@.records == Seq::<RecordView>::empty(),
            m.wf(),
    {
        let m = Message { tag, entries: Vec::new(), size: 0 };
        proof {
            assert(m@.records =~= Seq::<RecordView>::empty());
        }
        m
    }

    /// Appends a record and increments the running count.
    pub fn add(&mut self, record: Record)
        requires
            old(self).wf(),
            record.wf(),
            old(self)@.records.len() < usize::MAX,
        ensures
            final(self).wf(),
            final(self)@.tag == old(self)@.tag,
            final(self)@.records == old(self)@.records.push(record@),
    {
        self.entries.push(record);
        self.size = self.size + 1;
        proof {
            assert(self@.records =~= old(self)@.records.push(record@));
        }
    }

    /// Number of records in the message.
    pub fn len(&self) -> (n: usize)
        requires
            self.wf(),
        ensures
            n == self@.records.len(),
    {
        self.entries.len()
    }

    /// Removes all records and resets the count; the tag is kept.
    pub fn clear(&mut self)
        ensures
            final(self).wf(),
            final(self)@.tag == old(self)@.tag,
            final(self)@.records == Seq::<RecordView>::empty(),
    {
        self.entries.clear();
        self.size = 0;
        proof {
            assert(self@.records =~= Seq::<RecordView>::empty());
        }
    }
}

impl Clone for Value {
    /// Structural copy; the copy has the same view.
    fn clone(&self) -> (res: Self)
        ensures
            res@ == self@,
        decreases self,
    {
        match self {
            Value::Bool(b) => Value::Bool(*b),
            Value::Int(i) => Value::Int(*i),
            Value::Uint(u) => Value::Uint(*u),
            Value::Str(s) => Value::Str(s.clone()),
            Value::Severity(l) => Value::Severity(*l),
            Value::Object(m) => Value::Object(m.clone()),
        }
    }
}

impl Clone for FieldMap {
    /// Entry-by-entry copy; the copy has the same view.
    fn clone(&self) -> (res: Self)
        ensures
            res@ == self@,
        decreases self,
    {
        let mut entries: Vec<(String, Value)> = Vec::new();
        let n = self.entries.len();
        let mut i: usize = 0;
        while i < n
            invariant
                n == self.entries.len(),
                i <= n,
                entries@.len() == i,
                forall|j: int|
                    0 <= j < i ==> (entries@[j].0@, value_view(entries@[j].1)) == (
                        self.entries@[j].0@,
                        value_view(self.entries@[j].1),
                    ),
            decreases n - i,
        {
            let pair = &self.entries[i];
            let cloned_key = pair.0.clone();
            let cloned_value = pair.1.clone();
            entries.push((cloned_key, cloned_value));
            i += 1;
        }
        let res = FieldMap { entries };
        proof {
            lemma_entries_view_index(self.entries@);
            lemma_entries_view_index(res.entries@);
            assert(res@ =~= self@);
        }
        res
    }
}

} // verus!
