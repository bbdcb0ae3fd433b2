//! Full records, their partial shadows, and the operations between them.
//! Values are stored in schema order: position `i` holds the value of the
//! field whose `index` is `i`.
use vstd::prelude::*;

use crate::schema::{Field, RecordSchema};

verus! {

/// A full record: a value for every field of the schema, in schema order.
#[derive(Clone, Debug, PartialEq, Eq)]
pub struct Record<V> {
    pub values: Vec<V>,
}

/// A partial record: for every field of the schema, a value that is either
/// present (`Some`) or absent (`None`).
#[derive(Clone, Debug, PartialEq, Eq)]
pub struct PartialRecord<V> {
    pub values: Vec<Option<V>>,
}

/// The fields that a partial record lacks, in schema order.
#[derive(Clone, Debug, PartialEq, Eq)]
pub struct MissingFieldsError {
    pub missing: Vec<Field>,
}

impl<V> View for Record<V> {
    type V = Seq<V>;

    open spec fn view(&self) -> Seq<V> {
        self.values@
    }
}

impl<V> View for PartialRecord<V> {
    type V = Seq<Option<V>>;

    open spec fn view(&self) -> Seq<Option<V>> {
        self.values@
    }
}

/// A partial record of `n` fields, none of them present.
pub open spec fn all_absent<V>(n: nat) -> Seq<Option<V>> {
    Seq::new(n, |i: int| None)
}

/// Every field of the record, present.
pub open spec fn full_of<V>(r: Seq<V>) -> Seq<Option<V>> {
    r.map_values(|v: V| Some(v))
}

/// Every field is present.
pub open spec fn all_present<V>(p: Seq<Option<V>>) -> bool {
    forall|i: int| 0 <= i < p.len() ==> p[i] is Some
}

/// The values of a partial record whose fields are all present.
pub open spec fn unwrapped<V>(p: Seq<Option<V>>) -> Seq<V> {
    p.map_values(|o: Option<V>| o->0)
}

/// `base` with each field that `p` holds overwritten by `p`'s value.
pub open spec fn applied<V>(p: Seq<Option<V>>, base: Seq<V>) -> Seq<V> {
    Seq::new(
        base.len(),
        |i: int|
            match p[i] {
                Some(v) => v,
                None => base[i],
            },
    )
}

/// How one field is resolved by a merge: a present value beats an absent
/// one, and where both are present `prefer_other` picks the winner.
pub open spec fn merge_one<V>(mine: Option<V>, other: Option<V>, prefer_other: bool) -> Option<V> {
    match (mine, other) {
        (_, None) => mine,
        (None, Some(_)) => other,
        (Some(_), Some(_)) => if prefer_other {
            other
        } else {
            mine
        },
    }
}

/// The field-by-field merge of two partial records.
pub open spec fn merged<V>(mine: Seq<Option<V>>, other: Seq<Option<V>>, prefer_other: bool) -> Seq<
    Option<V>,
> {
    Seq::new(mine.len(), |i: int| merge_one(mine[i], other[i], prefer_other))
}

/// The absent fields of `p`, in schema order.
pub open spec fn missing_fields<V>(p: Seq<Option<V>>) -> Seq<Field>
    decreases p.len(),
{
    if p.len() == 0 {
        Seq::empty()
    } else {
        let earlier = missing_fields(p.drop_last());
        if p.last() is None {
            earlier.push(Field { index: (p.len() - 1) as usize })
        } else {
            earlier
        }
    }
}

/// The report of missing fields lists exactly the absent fields, each once,
/// in increasing schema order.
pub proof fn lemma_missing_fields_exact<V>(p: Seq<Option<V>>)
    requires
        p.len() <= usize::MAX,
    ensures
        forall|k: int|
            0 <= k < missing_fields(p).len() ==> {
                &&& (#[trigger] missing_fields(p)[k]).index < p.len()
                &&& p[missing_fields(p)[k].index as int] is None
            },
        forall|j: int, k: int|
            0 <= j < k < missing_fields(p).len() ==> (#[trigger] missing_fields(p)[j]).index
                < (#[trigger] missing_fields(p)[k]).index,
        forall|i: int|
            0 <= i < p.len() && p[i] is None ==> exists|k: int|
                0 <= k < missing_fields(p).len() && (#[trigger] missing_fields(p)[k]).index == i,
    decreases p.len(),
{
    if p.len() > 0 {
        let q = p.drop_last();
        lemma_missing_fields_exact(q);
        let m = missing_fields(p);
        let mq = missing_fields(q);
        if p.last() is None {
            assert(m == mq.push(Field { index: (p.len() - 1) as usize }));
        } else {
            assert(m == mq);
        }
        assert forall|k: int| 0 <= k < m.len() implies (#[trigger] m[k]).index < p.len() && p[m[k].index as int] is None by {
            if k < mq.len() {
                assert(m[k] == mq[k]);
                assert(q[mq[k].index as int] is None);
            }
        }
        assert forall|j: int, k: int| 0 <= j < k < m.len() implies (#[trigger] m[j]).index < (#[trigger] m[k]).index by {
            if k < mq.len() {
                assert(m[j] == mq[j] && m[k] == mq[k]);
                assert(mq[j].index < mq[k].index);
            } else {
                assert(m[j] == mq[j]);
                assert(mq[j].index < q.len());
            }
        }
        assert forall|i: int| 0 <= i < p.len() && p[i] is None implies exists|k: int| 0 <= k < m.len() && (#[trigger] m[k]).index == i by {
            if i < q.len() {
                assert(q[i] is None);
                let k = choose|k: int| 0 <= k < mq.len() && (#[trigger] mq[k]).index == i;
                assert(m[k] == mq[k]);
            } else {
                assert(m[m.len() - 1].index == i);
            }
        }
    }
}

/// A partial record is complete exactly when no field is missing from it.
pub proof fn lemma_complete_iff_no_missing<V>(p: Seq<Option<V>>)
    ensures
        all_present(p) <==> missing_fields(p).len() == 0,
    decreases p.len(),
{
    if p.len() > 0 {
        let q = p.drop_last();
        lemma_complete_iff_no_missing(q);
        if all_present(p) {
            assert forall|i: int| 0 <= i < q.len() implies q[i] is Some by {
                assert(p[i] is Some);
            }
        }
        if p.last() is Some && all_present(q) {
            assert forall|i: int| 0 <= i < p.len() implies p[i] is Some by {
                if i < q.len() {
                    assert(q[i] is Some);
                }
            }
        }
    }
}

/// Converting a record into its partial form and back gives the record
/// again: every field of `full_of(r)` is present, and unwrapping them yields
/// `r`.
pub proof fn lemma_round_trip<V>(r: Seq<V>)
    ensures
        all_present(full_of(r)),
        unwrapped(full_of(r)) == r,
{
    assert(unwrapped(full_of(r)) =~= r);
}

/// Merging with a partial record that holds nothing leaves a partial record
/// unchanged, whichever side is preferred on a clash.
pub proof fn lemma_merge_identity<V>(p: Seq<Option<V>>, prefer_other: bool)
    ensures
        merged(p, all_absent(p.len()), prefer_other) == p,
{
    assert(merged(p, all_absent(p.len()), prefer_other) =~= p);
}

/// `parts` joined with `, ` between consecutive parts.
pub open spec fn joined(parts: Seq<Seq<char>>) -> Seq<char>
    decreases parts.len(),
{
    if parts.len() == 0 {
        Seq::empty()
    } else if parts.len() == 1 {
        parts[0]
    } else {
        joined(parts.drop_last()) + ", "@ + parts.last()
    }
}

impl MissingFieldsError {
    /// The names of the missing fields, in the order reported.
    pub open spec fn missing_names(&self, schema: &RecordSchema) -> Seq<Seq<char>> {
        self.missing@.map_values(|f: Field| schema.names()[f.index as int])
    }

    /// Human-readable rendering: `Missing fields: ` and the missing fields'
    /// names joined by `, `.
    pub fn message(&self, schema: &RecordSchema) -> (r: String)
        requires
            forall|k: int| 0 <= k < self.missing@.len() ==> schema.has_field(#[trigger] self.missing@[k]),
        ensures
            r@ == "Missing fields: "@ + joined(self.missing_names(schema)),
    {
        let ghost all = self.missing_names(schema);
        let mut list = String::new();
        let mut i: usize = 0;
        assert(all.take(0) =~= Seq::<Seq<char>>::empty());
        while i < self.missing.len()
            invariant
                i <= self.missing@.len(),
                all == self.missing_names(schema),
                forall|k: int| 0 <= k < self.missing@.len() ==> schema.has_field(#[trigger] self.missing@[k]),
                list@ == joined(all.take(i as int)),
            decreases self.missing@.len() - i,
        {
            assert(all.take(i + 1).drop_last() =~= all.take(i as int));
            let f = self.missing[i];
            assert(self.missing@[i as int] == f);
            if i > 0 {
                list.append(", ");
            }
            list.append(schema.fields[f.index].name.as_str());
            if i == 0 {
                assert(list@ =~= joined(all.take(1)));
            }
            i = i + 1;
        }
        assert(all.take(i as int) =~= all);
        let mut r = String::from_str("Missing fields: ");
        r.append(list.as_str());
        r
    }
}

impl<V> Record<V> {
    /// The value of field `f`.
    pub fn get(&self, f: Field) -> (r: &V)
        requires
            f.index < self@.len(),
        ensures
            *r == self@[f.index as int],
    {
        &self.values[f.index]
    }
}

impl<V> PartialRecord<V> {
    /// The state of field `f`: its value if present.
    pub fn get(&self, f: Field) -> (r: &Option<V>)
        requires
            f.index < self@.len(),
        ensures
            *r == self@[f.index as int],
    {
        &self.values[f.index]
    }

    /// Sets field `f` to `value` (present or absent), leaving the others.
    pub fn set(&mut self, f: Field, value: Option<V>)
        requires
            f.index < old(self)@.len(),
        ensures
            final(self)@ == old(self)@.update(f.index as int, value),
    {
        self.values.set(f.index, value);
    }

    /// A partial record of the schema's fields, all absent.
    pub fn new(schema: &RecordSchema) -> (r: PartialRecord<V>)
        ensures
            r@ == all_absent::<V>(schema.len()),
    {
        let mut values: Vec<Option<V>> = Vec::new();
        let mut i: usize = 0;
        while i < schema.fields.len()
            invariant
                i <= schema.fields@.len(),
                values@ =~= all_absent::<V>(i as nat),
            decreases schema.fields@.len() - i,
        {
            values.push(None);
            i = i + 1;
        }
        PartialRecord { values }
    }

    /// The partial form of a full record: every field present with the
    /// record's value.
    pub fn from_full(record: Record<V>) -> (r: PartialRecord<V>)
        ensures
            r@ == full_of(record@),
    {
        let ghost r0 = record@;
        let mut src = record.values;
        let mut values: Vec<Option<V>> = Vec::new();
        while src.len() > 0
            invariant
                values@.len() + src@.len() == r0.len(),
                src@ == r0.skip(values@.len() as int),
                forall|k: int| 0 <= k < values@.len() ==> values@[k] == Some(r0[k]),
            decreases src@.len(),
        {
            let v = src.remove(0);
            values.push(Some(v));
        }
        assert(values@ =~= full_of(r0));
        PartialRecord { values }
    }

    /// `base` with each field that this partial record holds overwritten, and
    /// every other field kept.
    pub fn apply(self, base: Record<V>) -> (r: Record<V>)
        requires
            self@.len() == base@.len(),
        ensures
            r@ == applied(self@, base@),
    {
        let ghost p0 = self@;
        let ghost b0 = base@;
        let mut p = self.values;
        let mut b = base.values;
        let mut values: Vec<V> = Vec::new();
        while b.len() > 0
            invariant
                p0.len() == b0.len(),
                values@.len() + b@.len() == b0.len(),
                p@ == p0.skip(values@.len() as int),
                b@ == b0.skip(values@.len() as int),
                forall|k: int| 0 <= k < values@.len() ==> values@[k] == applied(p0, b0)[k],
            decreases b@.len(),
        {
            let x = p.remove(0);
            let y = b.remove(0);
            match x {
                Some(v) => values.push(v),
                None => values.push(y),
            }
        }
        assert(values@ =~= applied(p0, b0));
        Record { values }
    }

    /// Checks that every field is present; otherwise reports all the absent
    /// fields, in schema order.
    pub fn check_complete(&self) -> (r: Result<(), MissingFieldsError>)
        ensures
            r is Ok <==> all_present(self@),
            r matches Err(e) ==> e.missing@ == missing_fields(self@),
    {
        let mut missing: Vec<Field> = Vec::new();
        let mut i: usize = 0;
        assert(self@.take(0) =~= Seq::<Option<V>>::empty());
        while i < self.values.len()
            invariant
                i <= self@.len(),
                missing@ == missing_fields(self@.take(i as int)),
            decreases self@.len() - i,
        {
            assert(self@.take(i + 1).drop_last() =~= self@.take(i as int));
            match &self.values[i] {
                None => missing.push(Field { index: i }),
                Some(_) => {},
            }
            i = i + 1;
        }
        assert(self@.take(i as int) =~= self@);
        proof {
            lemma_complete_iff_no_missing(self@);
        }
        if missing.len() == 0 {
            Ok(())
        } else {
            Err(MissingFieldsError { missing })
        }
    }

    /// Resolves each field independently: a present value beats an absent
    /// one; where both are present, `other`'s wins exactly when
    /// `prefer_other_on_clash` is set.
    pub fn merge(self, other: PartialRecord<V>, prefer_other_on_clash: bool) -> (r: PartialRecord<V>)
        requires
            self@.len() == other@.len(),
        ensures
            r@ == merged(self@, other@, prefer_other_on_clash),
    {
        let ghost a0 = self@;
        let ghost b0 = other@;
        let mut a = self.values;
        let mut b = other.values;
        let mut values: Vec<Option<V>> = Vec::new();
        while a.len() > 0
            invariant
                a0.len() == b0.len(),
                values@.len() + a@.len() == a0.len(),
                a@ == a0.skip(values@.len() as int),
                b@ == b0.skip(values@.len() as int),
                forall|k: int|
                    0 <= k < values@.len() ==> values@[k] == merged(a0, b0, prefer_other_on_clash)[k],
            decreases a@.len(),
        {
            let x = a.remove(0);
            let y = b.remove(0);
            let v = match (x, y) {
                (x, None) => x,
                (None, y) => y,
                (x, y) => if prefer_other_on_clash {
                    y
                } else {
                    x
                },
            };
            values.push(v);
        }
        assert(values@ =~= merged(a0, b0, prefer_other_on_clash));
        PartialRecord { values }
    }

    /// The full record, when every field is present; otherwise all the
    /// absent fields, in schema order.
    pub fn try_into_full(self) -> (r: Result<Record<V>, MissingFieldsError>)
        ensures
            r is Ok <==> all_present(self@),
            r matches Ok(rec) ==> rec@ == unwrapped(self@),
            r matches Err(e) ==> e.missing@ == missing_fields(self@),
    {
        match self.check_complete() {
            Err(e) => Err(e),
            Ok(()) => {
                let ghost p0 = self@;
                let mut p = self.values;
                let mut values: Vec<V> = Vec::new();
                while p.len() > 0
                    invariant
                        all_present(p0),
                        values@.len() + p@.len() == p0.len(),
                        p@ == p0.skip(values@.len() as int),
                        forall|k: int| 0 <= k < values@.len() ==> values@[k] == unwrapped(p0)[k],
                    decreases p@.len(),
                {
                    let x = p.remove(0);
                    assert(p0[values@.len() as int] is Some);
                    values.push(x.unwrap());
                }
                assert(values@ =~= unwrapped(p0));
                Ok(Record { values })
            },
        }
    }
}

} // verus!
