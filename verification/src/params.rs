//! The parameter structure that a request carries: a tree of mappings,
//! sequences and scalars, together with its mathematical model.

use vstd::prelude::*;

verus! {

/// A request parameter value: a boolean, integer or string scalar, an
/// ordered sequence, or a mapping with unique keys held sorted by key.
pub enum ParamValue {
    Bool(bool),
    Int(i64),
    Str(String),
    Arr(Vec<ParamValue>),
    Obj(Vec<(String, ParamValue)>),
}

/// The mathematical model of a `ParamValue`: strings become character
/// sequences, vectors become sequences.
pub ghost enum ParamModel {
    Bool(bool),
    Int(int),
    Str(Seq<char>),
    Arr(Seq<ParamModel>),
    Obj(Seq<(Seq<char>, ParamModel)>),
}

impl ParamValue {
    /// The model of this value.
    pub open spec fn model(self) -> ParamModel
        decreases self,
    {
        match self {
            ParamValue::Bool(b) => ParamModel::Bool(b),
            ParamValue::Int(n) => ParamModel::Int(n as int),
            ParamValue::Str(s) => ParamModel::Str(s@),
            ParamValue::Arr(items) => ParamModel::Arr(model_list(items@)),
            ParamValue::Obj(entries) => ParamModel::Obj(model_entries(entries@)),
        }
    }
}

/// The models of a sequence of values, element by element.
pub open spec fn model_list(s: Seq<ParamValue>) -> Seq<ParamModel>
    decreases s,
{
    if s.len() == 0 {
        Seq::empty()
    } else {
        seq![s[0].model()] + model_list(s.skip(1))
    }
}

/// The models of a sequence of entries, entry by entry.
pub open spec fn model_entries(s: Seq<(String, ParamValue)>) -> Seq<(Seq<char>, ParamModel)>
    decreases s,
{
    if s.len() == 0 {
        Seq::empty()
    } else {
        seq![(s[0].0@, s[0].1.model())] + model_entries(s.skip(1))
    }
}

/// `model_list` maps the sequence pointwise.
pub proof fn lemma_model_list(s: Seq<ParamValue>)
    ensures
        model_list(s).len() == s.len(),
        forall|i: int| 0 <= i < s.len() ==> model_list(s)[i] == #[trigger] s[i].model(),
    decreases s.len(),
{
    if s.len() > 0 {
        lemma_model_list(s.skip(1));
        assert forall|i: int| 0 <= i < s.len() implies model_list(s)[i] == #[trigger] s[i]
            .model() by {
            if i > 0 {
                assert(s.skip(1)[i - 1] == s[i]);
                assert(model_list(s)[i] == model_list(s.skip(1))[i - 1]);
            }
        }
    }
}

/// `model_entries` maps the sequence pointwise.
pub proof fn lemma_model_entries(s: Seq<(String, ParamValue)>)
    ensures
        model_entries(s).len() == s.len(),
        forall|i: int|
            0 <= i < s.len() ==> model_entries(s)[i] == (#[trigger] s[i].0@, s[i].1.model()),
    decreases s.len(),
{
    if s.len() > 0 {
        lemma_model_entries(s.skip(1));
        assert forall|i: int| 0 <= i < s.len() implies model_entries(s)[i] == (
        #[trigger] s[i].0@,
        s[i].1.model(),
        ) by {
            if i > 0 {
                assert(s.skip(1)[i - 1] == s[i]);
                assert(model_entries(s)[i] == model_entries(s.skip(1))[i - 1]);
            }
        }
    }
}

impl View for ParamValue {
    type V = ParamModel;

    open spec fn view(&self) -> ParamModel {
        self.model()
    }
}

/// Every element of a sequence is well-formed.
pub open spec fn wf_list(s: Seq<ParamModel>) -> bool
    decreases s,
{
    if s.len() == 0 {
        true
    } else {
        s[0].wf() && wf_list(s.skip(1))
    }
}

/// `wf_list` holds exactly when each element is well-formed.
pub proof fn lemma_wf_list_pointwise(s: Seq<ParamModel>)
    ensures
        wf_list(s) <==> (forall|i: int| 0 <= i < s.len() ==> (#[trigger] s[i]).wf()),
    decreases s.len(),
{
    if s.len() > 0 {
        lemma_wf_list_pointwise(s.skip(1));
        if wf_list(s) {
            assert forall|i: int| 0 <= i < s.len() implies (#[trigger] s[i]).wf() by {
                if i > 0 {
                    assert(s.skip(1)[i - 1] == s[i]);
                    assert(s.skip(1)[i - 1].wf());
                }
            }
        }
        if forall|i: int| 0 <= i < s.len() ==> (#[trigger] s[i]).wf() {
            assert forall|i: int| 0 <= i < s.skip(1).len() implies (#[trigger] s.skip(1)[i]).wf() by {
                assert(s.skip(1)[i] == s[i + 1]);
                assert(s[i + 1].wf());
            }
            assert(s[0].wf());
        }
    }
}

/// Strict lexicographic order on character sequences, by code point.
pub open spec fn seq_lt(a: Seq<char>, b: Seq<char>) -> bool
    decreases a.len(),
{
    if b.len() == 0 {
        false
    } else if a.len() == 0 {
        true
    } else if a[0] != b[0] {
        (a[0] as u32) < (b[0] as u32)
    } else {
        seq_lt(a.skip(1), b.skip(1))
    }
}

/// `seq_lt` is irreflexive.
pub proof fn lemma_seq_lt_irrefl(a: Seq<char>)
    ensures
        !seq_lt(a, a),
    decreases a.len(),
{
    if a.len() > 0 {
        lemma_seq_lt_irrefl(a.skip(1));
    }
}

/// `seq_lt` is asymmetric.
pub proof fn lemma_seq_lt_asym(a: Seq<char>, b: Seq<char>)
    requires
        seq_lt(a, b),
    ensures
        !seq_lt(b, a),
    decreases a.len(),
{
    if a.len() > 0 && b.len() > 0 && a[0] == b[0] {
        lemma_seq_lt_asym(a.skip(1), b.skip(1));
    }
}

/// `seq_lt` is transitive.
pub proof fn lemma_seq_lt_trans(a: Seq<char>, b: Seq<char>, c: Seq<char>)
    requires
        seq_lt(a, b),
        seq_lt(b, c),
    ensures
        seq_lt(a, c),
    decreases a.len(),
{
    if a.len() > 0 && b.len() > 0 && c.len() > 0 && a[0] == b[0] && b[0] == c[0] {
        lemma_seq_lt_trans(a.skip(1), b.skip(1), c.skip(1));
    }
}

/// Equal code points make equal characters.
proof fn lemma_char_code_injective(c: char, d: char)
    requires
        c as u32 == d as u32,
    ensures
        c == d,
{
}

/// `seq_lt` is connected: two sequences that neither precede one another
/// are equal.
pub proof fn lemma_seq_lt_connected(a: Seq<char>, b: Seq<char>)
    requires
        !seq_lt(a, b),
        !seq_lt(b, a),
    ensures
        a == b,
    decreases a.len(),
{
    if a.len() == 0 && b.len() == 0 {
        assert(a =~= b);
    } else if a.len() > 0 && b.len() > 0 {
        if a[0] != b[0] {
            assert(!((a[0] as u32) < (b[0] as u32)));
            assert(!((b[0] as u32) < (a[0] as u32)));
            lemma_char_code_injective(a[0], b[0]);
            assert(false);
        }
        assert(a[0] == b[0]);
        assert(!seq_lt(a.skip(1), b.skip(1)));
        assert(!seq_lt(b.skip(1), a.skip(1)));
        lemma_seq_lt_connected(a.skip(1), b.skip(1));
        assert forall|i: int| 0 <= i < a.len() implies a[i] == b[i] by {
            if i > 0 {
                assert(a.skip(1)[i - 1] == b.skip(1)[i - 1]);
            }
        }
        assert(a =~= b);
    }
}

/// The mapping that a sequence of entries denotes; an earlier entry wins
/// over a later one with the same key.
pub open spec fn entries_map(es: Seq<(Seq<char>, ParamModel)>) -> Map<Seq<char>, ParamModel>
    decreases es.len(),
{
    if es.len() == 0 {
        Map::empty()
    } else {
        entries_map(es.skip(1)).insert(es[0].0, es[0].1)
    }
}

/// Entries strictly sorted by key.
pub open spec fn entries_sorted(es: Seq<(Seq<char>, ParamModel)>) -> bool {
    forall|i: int, j: int|
        0 <= i < j < es.len() ==> seq_lt(#[trigger] es[i].0, #[trigger] es[j].0)
}

/// The domain of `entries_map` is exactly the set of keys, and the first
/// entry with a key decides its value.
pub proof fn lemma_entries_map_props(es: Seq<(Seq<char>, ParamModel)>)
    ensures
        forall|k: Seq<char>|
            entries_map(es).dom().contains(k) <==> exists|i: int|
                0 <= i < es.len() && (#[trigger] es[i]).0 == k,
        forall|i: int|
            0 <= i < es.len() && (forall|j: int| 0 <= j < i ==> (#[trigger] es[j]).0 != es[i].0)
                ==> entries_map(es)[(#[trigger] es[i]).0] == es[i].1,
    decreases es.len(),
{
    if es.len() > 0 {
        lemma_entries_map_props(es.skip(1));
        assert forall|k: Seq<char>| entries_map(es).dom().contains(k) implies exists|i: int|
            0 <= i < es.len() && (#[trigger] es[i]).0 == k by {
            if k != es[0].0 {
                assert(entries_map(es.skip(1)).dom().contains(k));
                let i = choose|i: int|
                    0 <= i < es.skip(1).len() && (#[trigger] es.skip(1)[i]).0 == k;
                assert(es.skip(1)[i] == es[i + 1]);
                assert(es[i + 1].0 == k);
            } else {
                assert(es[0].0 == k);
            }
        }
        assert forall|k: Seq<char>|
            exists|i: int| 0 <= i < es.len() && (#[trigger] es[i]).0 == k implies entries_map(
            es,
        ).dom().contains(k) by {
            let i = choose|i: int| 0 <= i < es.len() && (#[trigger] es[i]).0 == k;
            if i > 0 {
                assert(es.skip(1)[i - 1] == es[i]);
                assert(es.skip(1)[i - 1].0 == k);
                assert(entries_map(es.skip(1)).dom().contains(k));
            }
        }
        assert forall|i: int|
            0 <= i < es.len() && (forall|j: int|
                0 <= j < i ==> (#[trigger] es[j]).0 != es[i].0) implies entries_map(es)[(
        #[trigger] es[i]).0] == es[i].1 by {
            if i > 0 {
                assert(es.skip(1)[i - 1] == es[i]);
                assert forall|j: int| 0 <= j < i - 1 implies (#[trigger] es.skip(1)[j]).0 != es.skip(
                    1,
                )[i - 1].0 by {
                    assert(es.skip(1)[j] == es[j + 1]);
                }
                assert(entries_map(es.skip(1))[es.skip(1)[i - 1].0] == es.skip(1)[i - 1].1);
                assert(es[i].0 != es[0].0);
            }
        }
    }
}

/// Two strictly sorted entry sequences that denote the same mapping are
/// the same sequence: the canonical representation is unique.
#[verifier::rlimit(100)]
pub proof fn lemma_sorted_entries_unique(
    e1: Seq<(Seq<char>, ParamModel)>,
    e2: Seq<(Seq<char>, ParamModel)>,
)
    requires
        entries_sorted(e1),
        entries_sorted(e2),
        entries_map(e1) == entries_map(e2),
    ensures
        e1 == e2,
    decreases e1.len(),
{
    lemma_entries_map_props(e1);
    lemma_entries_map_props(e2);
    if e1.len() == 0 {
        if e2.len() > 0 {
            assert(entries_map(e2).dom().contains(e2[0].0));
            assert(false);
        }
        assert(e1 =~= e2);
    } else {
        assert(entries_map(e1).dom().contains(e1[0].0));
        assert(entries_map(e2).dom().contains(e2[0].0));
        let i = choose|i: int| 0 <= i < e1.len() && (#[trigger] e1[i]).0 == e2[0].0;
        let j = choose|j: int| 0 <= j < e2.len() && (#[trigger] e2[j]).0 == e1[0].0;
        if i > 0 && j > 0 {
            assert(seq_lt(e1[0].0, e1[i].0));
            assert(seq_lt(e2[0].0, e2[j].0));
            lemma_seq_lt_asym(e1[0].0, e2[0].0);
            assert(false);
        }
        let k0 = e1[0].0;
        assert(e2[0].0 == k0);
        assert(entries_map(e1)[k0] == e1[0].1);
        assert(entries_map(e2)[k0] == e2[0].1);
        assert(e1[0] == e2[0]);
        lemma_sorted_tail_map(e1);
        lemma_sorted_tail_map(e2);
        assert(entries_map(e1.skip(1)) =~= entries_map(e1).remove(k0));
        assert(entries_map(e2.skip(1)) =~= entries_map(e2).remove(k0));
        assert forall|i2: int, j2: int| 0 <= i2 < j2 < e1.skip(1).len() implies seq_lt(
            #[trigger] e1.skip(1)[i2].0,
            #[trigger] e1.skip(1)[j2].0,
        ) by {
            assert(e1.skip(1)[i2] == e1[i2 + 1]);
            assert(e1.skip(1)[j2] == e1[j2 + 1]);
        }
        assert forall|i2: int, j2: int| 0 <= i2 < j2 < e2.skip(1).len() implies seq_lt(
            #[trigger] e2.skip(1)[i2].0,
            #[trigger] e2.skip(1)[j2].0,
        ) by {
            assert(e2.skip(1)[i2] == e2[i2 + 1]);
            assert(e2.skip(1)[j2] == e2[j2 + 1]);
        }
        lemma_sorted_entries_unique(e1.skip(1), e2.skip(1));
        assert forall|m: int| 0 <= m < e1.len() implies e1[m] == e2[m] by {
            if m > 0 {
                assert(e1.skip(1)[m - 1] == e2.skip(1)[m - 1]);
            }
        }
        assert(e1 =~= e2);
    }
}

/// For strictly sorted entries, the map of the tail is the whole map with
/// the first key removed.
pub proof fn lemma_sorted_tail_map(es: Seq<(Seq<char>, ParamModel)>)
    requires
        entries_sorted(es),
        es.len() > 0,
    ensures
        entries_map(es.skip(1)) == entries_map(es).remove(es[0].0),
{
    lemma_entries_map_props(es.skip(1));
    let k0 = es[0].0;
    assert forall|m: int| 0 <= m < es.skip(1).len() implies (#[trigger] es.skip(1)[m]).0 != k0 by {
        assert(es.skip(1)[m] == es[m + 1]);
        assert(seq_lt(k0, es[m + 1].0));
        lemma_seq_lt_irrefl(k0);
    }
    assert(!entries_map(es.skip(1)).dom().contains(k0));
    assert(entries_map(es.skip(1)) =~= entries_map(es).remove(k0));
}

/// Insert a key-value pair into a sorted entry sequence, keeping it
/// sorted; an entry with the same key is replaced.
pub open spec fn entries_set(
    es: Seq<(Seq<char>, ParamModel)>,
    k: Seq<char>,
    v: ParamModel,
) -> Seq<(Seq<char>, ParamModel)>
    decreases es.len(),
{
    if es.len() == 0 {
        seq![(k, v)]
    } else if k == es[0].0 {
        seq![(k, v)] + es.skip(1)
    } else if seq_lt(k, es[0].0) {
        seq![(k, v)] + es
    } else {
        seq![es[0]] + entries_set(es.skip(1), k, v)
    }
}

/// `entries_set` keeps entries strictly sorted.
pub proof fn lemma_entries_set_sorted(es: Seq<(Seq<char>, ParamModel)>, k: Seq<char>, v: ParamModel)
    requires
        entries_sorted(es),
    ensures
        entries_sorted(entries_set(es, k, v)),
        forall|i: int|
            0 <= i < entries_set(es, k, v).len() ==> (#[trigger] entries_set(es, k, v)[i]).1 == v
                || exists|j: int| 0 <= j < es.len() && entries_set(es, k, v)[i] == #[trigger] es[j],
    decreases es.len(),
{
    let r = entries_set(es, k, v);
    if es.len() == 0 {
    } else if k == es[0].0 {
        assert forall|i: int, j: int| 0 <= i < j < r.len() implies seq_lt(
            #[trigger] r[i].0,
            #[trigger] r[j].0,
        ) by {
            if i > 0 {
                assert(r[i] == es[i]);
                assert(r[j] == es[j]);
            } else {
                assert(r[j] == es[j]);
            }
        }
        assert forall|i: int| 0 <= i < r.len() implies (#[trigger] r[i]).1 == v || exists|j: int|
            0 <= j < es.len() && r[i] == #[trigger] es[j] by {
            if i > 0 {
                assert(r[i] == es[i]);
            }
        }
    } else if seq_lt(k, es[0].0) {
        assert forall|i: int, j: int| 0 <= i < j < r.len() implies seq_lt(
            #[trigger] r[i].0,
            #[trigger] r[j].0,
        ) by {
            if i > 0 {
                assert(r[i] == es[i - 1]);
                assert(r[j] == es[j - 1]);
            } else {
                assert(r[j] == es[j - 1]);
                if j > 1 {
                    lemma_seq_lt_trans(k, es[0].0, es[j - 1].0);
                }
            }
        }
        assert forall|i: int| 0 <= i < r.len() implies (#[trigger] r[i]).1 == v || exists|j: int|
            0 <= j < es.len() && r[i] == #[trigger] es[j] by {
            if i > 0 {
                assert(r[i] == es[i - 1]);
            }
        }
    } else {
        assert forall|i2: int, j2: int| 0 <= i2 < j2 < es.skip(1).len() implies seq_lt(
            #[trigger] es.skip(1)[i2].0,
            #[trigger] es.skip(1)[j2].0,
        ) by {
            assert(es.skip(1)[i2] == es[i2 + 1]);
            assert(es.skip(1)[j2] == es[j2 + 1]);
        }
        lemma_entries_set_sorted(es.skip(1), k, v);
        let rt = entries_set(es.skip(1), k, v);
        lemma_seq_lt_connected_head(es, k);
        assert forall|i: int| 1 <= i < r.len() implies seq_lt(es[0].0, (#[trigger] r[i]).0) by {
            assert(r[i] == rt[i - 1]);
            if rt[i - 1].1 == v && rt[i - 1].0 == k {
                assert(seq_lt(es[0].0, k));
            }
            if exists|j: int| 0 <= j < es.skip(1).len() && rt[i - 1] == #[trigger] es.skip(1)[j] {
                let j = choose|j: int|
                    0 <= j < es.skip(1).len() && rt[i - 1] == #[trigger] es.skip(1)[j];
                assert(es.skip(1)[j] == es[j + 1]);
                assert(seq_lt(es[0].0, es[j + 1].0));
            } else {
                lemma_entries_set_value(es.skip(1), k, v, i - 1);
                assert(seq_lt(es[0].0, k));
            }
        }
        assert forall|i: int, j: int| 0 <= i < j < r.len() implies seq_lt(
            #[trigger] r[i].0,
            #[trigger] r[j].0,
        ) by {
            if i > 0 {
                assert(r[i] == rt[i - 1]);
                assert(r[j] == rt[j - 1]);
            }
        }
        assert forall|i: int| 0 <= i < r.len() implies (#[trigger] r[i]).1 == v || exists|j: int|
            0 <= j < es.len() && r[i] == #[trigger] es[j] by {
            if i > 0 {
                assert(r[i] == rt[i - 1]);
                if exists|j: int| 0 <= j < es.skip(1).len() && rt[i - 1] == #[trigger] es.skip(1)[j]
                 {
                    let j = choose|j: int|
                        0 <= j < es.skip(1).len() && rt[i - 1] == #[trigger] es.skip(1)[j];
                    assert(r[i] == es[j + 1]);
                }
            } else {
                assert(r[0] == es[0]);
            }
        }
    }
}

/// An entry of `entries_set` that came from no old entry carries the new
/// key and value.
pub proof fn lemma_entries_set_value(
    es: Seq<(Seq<char>, ParamModel)>,
    k: Seq<char>,
    v: ParamModel,
    i: int,
)
    requires
        0 <= i < entries_set(es, k, v).len(),
        !(exists|j: int| 0 <= j < es.len() && entries_set(es, k, v)[i] == #[trigger] es[j]),
    ensures
        entries_set(es, k, v)[i] == (k, v),
    decreases es.len(),
{
    let r = entries_set(es, k, v);
    if es.len() == 0 {
    } else if k == es[0].0 {
        if i > 0 {
            assert(r[i] == es[i]);
        }
    } else if seq_lt(k, es[0].0) {
        if i > 0 {
            assert(r[i] == es[i - 1]);
        }
    } else {
        if i == 0 {
            assert(r[0] == es[0]);
        } else {
            assert(r[i] == entries_set(es.skip(1), k, v)[i - 1]);
            assert forall|j: int|
                0 <= j < es.skip(1).len() implies entries_set(es.skip(1), k, v)[i - 1] != (
            #[trigger] es.skip(1)[j]) || false by {
                if entries_set(es.skip(1), k, v)[i - 1] == es.skip(1)[j] {
                    assert(es.skip(1)[j] == es[j + 1]);
                    assert(r[i] == es[j + 1]);
                    assert(false);
                }
            }
            lemma_entries_set_value(es.skip(1), k, v, i - 1);
        }
    }
}

/// Helper: when the new key neither equals nor precedes the head key, the
/// head key precedes the new key.
proof fn lemma_seq_lt_connected_head(es: Seq<(Seq<char>, ParamModel)>, k: Seq<char>)
    requires
        es.len() > 0,
        k != es[0].0,
        !seq_lt(k, es[0].0),
    ensures
        seq_lt(es[0].0, k),
{
    if !seq_lt(es[0].0, k) {
        lemma_seq_lt_connected(k, es[0].0);
    }
}

/// `entries_set` denotes insertion on the mapping.
pub proof fn lemma_entries_set_map(es: Seq<(Seq<char>, ParamModel)>, k: Seq<char>, v: ParamModel)
    requires
        entries_sorted(es),
    ensures
        entries_map(entries_set(es, k, v)) == entries_map(es).insert(k, v),
    decreases es.len(),
{
    let r = entries_set(es, k, v);
    if es.len() == 0 {
        reveal_with_fuel(entries_map, 2);
        assert(r.skip(1) =~= Seq::<(Seq<char>, ParamModel)>::empty());
        assert(r[0] == (k, v));
        assert(entries_map(r) =~= entries_map(es).insert(k, v));
    } else if k == es[0].0 {
        assert(r.skip(1) =~= es.skip(1));
        assert(r[0] == (k, v));
        assert(entries_map(r) =~= entries_map(es).insert(k, v));
    } else if seq_lt(k, es[0].0) {
        assert(r.skip(1) =~= es);
        assert(r[0] == (k, v));
        assert(entries_map(r) =~= entries_map(es).insert(k, v));
    } else {
        assert forall|i2: int, j2: int| 0 <= i2 < j2 < es.skip(1).len() implies seq_lt(
            #[trigger] es.skip(1)[i2].0,
            #[trigger] es.skip(1)[j2].0,
        ) by {
            assert(es.skip(1)[i2] == es[i2 + 1]);
            assert(es.skip(1)[j2] == es[j2 + 1]);
        }
        lemma_entries_set_map(es.skip(1), k, v);
        assert(r[0] == es[0]);
        assert(r.skip(1) =~= entries_set(es.skip(1), k, v));
        let m = entries_map(es.skip(1));
        assert(entries_map(r) == m.insert(k, v).insert(es[0].0, es[0].1));
        assert(m.insert(k, v).insert(es[0].0, es[0].1) =~= m.insert(es[0].0, es[0].1).insert(
            k,
            v,
        ));
        assert(entries_map(r) == entries_map(es).insert(k, v));
    }
}

impl ParamModel {
    /// Well-formed: every mapping's entries are strictly sorted by key,
    /// so keys are unique and the representation is canonical.
    pub open spec fn wf(self) -> bool
        decreases self,
    {
        match self {
            ParamModel::Bool(_) => true,
            ParamModel::Int(_) => true,
            ParamModel::Str(_) => true,
            ParamModel::Arr(items) => wf_list(items),
            ParamModel::Obj(entries) => {
                &&& entries_sorted(entries)
                &&& forall|i: int| 0 <= i < entries.len() ==> (#[trigger] entries[i].1).wf()
            },
        }
    }

    /// A scalar: a boolean, an integer or a string.
    pub open spec fn is_scalar(self) -> bool {
        match self {
            ParamModel::Bool(_) => true,
            ParamModel::Int(_) => true,
            ParamModel::Str(_) => true,
            ParamModel::Arr(_) => false,
            ParamModel::Obj(_) => false,
        }
    }

    /// The entries of a mapping; the empty sequence for any other value.
    pub open spec fn obj_entries(self) -> Seq<(Seq<char>, ParamModel)> {
        match self {
            ParamModel::Obj(entries) => entries,
            _ => Seq::empty(),
        }
    }

    /// The mapping a value denotes.
    pub open spec fn obj_map(self) -> Map<Seq<char>, ParamModel> {
        entries_map(self.obj_entries())
    }

    /// The mapping with `k` bound to `v`; meaningful on mappings only.
    pub open spec fn obj_set(self, k: Seq<char>, v: ParamModel) -> ParamModel {
        ParamModel::Obj(entries_set(self.obj_entries(), k, v))
    }
}


/// When some entry already carries the key, `entries_set` replaces it in
/// place.
pub proof fn lemma_entries_set_replace(
    es: Seq<(Seq<char>, ParamModel)>,
    k: Seq<char>,
    v: ParamModel,
    i: int,
)
    requires
        entries_sorted(es),
        0 <= i < es.len(),
        es[i].0 == k,
    ensures
        entries_set(es, k, v) == es.update(i, (k, v)),
    decreases es.len(),
{
    let r = entries_set(es, k, v);
    if i == 0 {
        assert(r =~= es.update(0, (k, v)));
    } else {
        assert(seq_lt(es[0].0, k));
        lemma_seq_lt_irrefl(k);
        lemma_seq_lt_asym(es[0].0, k);
        assert(k != es[0].0);
        assert(!seq_lt(k, es[0].0));
        lemma_sorted_skip(es);
        assert(es.skip(1)[i - 1] == es[i]);
        lemma_entries_set_replace(es.skip(1), k, v, i - 1);
        assert(r =~= es.update(i, (k, v)));
    }
}

/// When no entry carries the key and `p` is its sorted position,
/// `entries_set` inserts there.
pub proof fn lemma_entries_set_insert_at(
    es: Seq<(Seq<char>, ParamModel)>,
    k: Seq<char>,
    v: ParamModel,
    p: int,
)
    requires
        entries_sorted(es),
        0 <= p <= es.len(),
        forall|j: int| 0 <= j < p ==> seq_lt((#[trigger] es[j]).0, k),
        p < es.len() ==> seq_lt(k, es[p].0),
    ensures
        entries_set(es, k, v) == es.insert(p, (k, v)),
    decreases es.len(),
{
    let r = entries_set(es, k, v);
    if es.len() == 0 {
        assert(r =~= es.insert(0, (k, v)));
    } else if p == 0 {
        lemma_seq_lt_irrefl(k);
        assert(k != es[0].0);
        assert(r =~= es.insert(0, (k, v)));
    } else {
        assert(seq_lt(es[0].0, k));
        lemma_seq_lt_irrefl(k);
        lemma_seq_lt_asym(es[0].0, k);
        assert(k != es[0].0);
        assert(!seq_lt(k, es[0].0));
        lemma_sorted_skip(es);
        assert forall|j: int| 0 <= j < p - 1 implies seq_lt((#[trigger] es.skip(1)[j]).0, k) by {
            assert(es.skip(1)[j] == es[j + 1]);
        }
        if p - 1 < es.skip(1).len() {
            assert(es.skip(1)[p - 1] == es[p]);
        }
        lemma_entries_set_insert_at(es.skip(1), k, v, p - 1);
        assert(r =~= es.insert(p, (k, v)));
    }
}

/// The tail of a sorted entry sequence is sorted.
pub proof fn lemma_sorted_skip(es: Seq<(Seq<char>, ParamModel)>)
    requires
        entries_sorted(es),
        es.len() > 0,
    ensures
        entries_sorted(es.skip(1)),
{
    assert forall|i: int, j: int| 0 <= i < j < es.skip(1).len() implies seq_lt(
        #[trigger] es.skip(1)[i].0,
        #[trigger] es.skip(1)[j].0,
    ) by {
        assert(es.skip(1)[i] == es[i + 1]);
        assert(es.skip(1)[j] == es[j + 1]);
    }
}

impl ParamValue {
    /// A mapping with no entries.
    pub fn new_object() -> (r: ParamValue)
        ensures
            r@ == ParamModel::Obj(Seq::<(Seq<char>, ParamModel)>::empty()),
            r@.wf(),
    {
        let entries: Vec<(String, ParamValue)> = Vec::new();
        ParamValue::Obj(entries)
    }

    /// Bind `key` to `value` in a mapping, keeping entries sorted by key;
    /// an entry with an equal key is replaced.
    pub fn obj_set(self, key: String, value: ParamValue) -> (r: ParamValue)
        requires
            self@ is Obj,
            self@.wf(),
            value@.wf(),
        ensures
            r@ == self@.obj_set(key@, value@),
            r@.wf(),
    {
        let ghost gself = self@;
        match self {
            ParamValue::Obj(mut entries) => {
                proof {
                    lemma_model_entries(entries@);
                }
                let ghost ges = model_entries(entries@);
                let n = entries.len();
                let mut i: usize = 0;
                let mut found = false;
                loop
                    invariant_except_break
                        !found,
                    invariant
                        i <= n,
                        n == entries.len(),
                        ges == model_entries(entries@),
                        ges.len() == n,
                        forall|j: int|
                            0 <= j < n ==> ges[j] == (
                                #[trigger] entries@[j].0@,
                                entries@[j].1.model(),
                            ),
                        entries_sorted(ges),
                        forall|j: int| 0 <= j < i ==> seq_lt((#[trigger] ges[j]).0, key@),
                    ensures
                        i <= n,
                        forall|j: int| 0 <= j < i ==> seq_lt((#[trigger] ges[j]).0, key@),
                        found ==> i < n && ges[i as int].0 == key@,
                        !found && i < n ==> !seq_lt(ges[i as int].0, key@) && ges[i as int].0
                            != key@,
                    decreases n - i,
                {
                    if i == n {
                        break;
                    }
                    let lt = crate::text::str_lt(entries[i].0.as_str(), key.as_str());
                    if lt {
                        i = i + 1;
                    } else if entries[i].0 == key {
                        found = true;
                        break;
                    } else {
                        break;
                    }
                }
                let ghost new_model = entries_set(gself.obj_entries(), key@, value@);
                proof {
                    lemma_entries_set_sorted(ges, key@, value@);
                }
                if found {
                    proof {
                        lemma_entries_set_replace(ges, key@, value@, i as int);
                    }
                    let ghost before = entries@;
                    entries.set(i, (key, value));
                    proof {
                        lemma_model_entries(entries@);
                        assert forall|j: int|
                            0 <= j < ges.len() implies model_entries(entries@)[j] == ges.update(
                            i as int,
                            (key@, value@),
                        )[j] by {
                            assert(model_entries(entries@)[j] == (
                                entries@[j].0@,
                                entries@[j].1.model(),
                            ));
                            if j != i {
                                assert(entries@[j] == before[j]);
                                assert(ges[j] == (before[j].0@, before[j].1.model()));
                            }
                        }
                        assert(model_entries(entries@) =~= ges.update(i as int, (key@, value@)));
                        assert(model_entries(entries@) == new_model);
                    }
                    let r = ParamValue::Obj(entries);
                    proof {
                        lemma_wf_from_entries_set(gself, key@, value@, r@);
                    }
                    r
                } else {
                    proof {
                        if i < n {
                            lemma_seq_lt_connected_or(ges[i as int].0, key@);
                            assert(seq_lt(key@, ges[i as int].0));
                        }
                        lemma_entries_set_insert_at(ges, key@, value@, i as int);
                    }
                    let ghost before = entries@;
                    entries.insert(i, (key, value));
                    proof {
                        lemma_model_entries(entries@);
                        ges.insert_ensures(i as int, (key@, value@));
                        before.insert_ensures(i as int, (key, value));
                        assert forall|j: int|
                            0 <= j < entries@.len() implies model_entries(entries@)[j]
                            == ges.insert(i as int, (key@, value@))[j] by {
                            assert(model_entries(entries@)[j] == (
                                entries@[j].0@,
                                entries@[j].1.model(),
                            ));
                            if j < i {
                                assert(entries@[j] == before[j]);
                                assert(ges[j] == (before[j].0@, before[j].1.model()));
                            } else if j > i {
                                assert(entries@[j] == before[j - 1]);
                                assert(ges[j - 1] == (before[j - 1].0@, before[j - 1].1.model()));
                            }
                        }
                        assert(model_entries(entries@) =~= ges.insert(i as int, (key@, value@)));
                        assert(model_entries(entries@) == new_model);
                    }
                    let r = ParamValue::Obj(entries);
                    proof {
                        lemma_wf_from_entries_set(gself, key@, value@, r@);
                    }
                    r
                }
            },
            _ => {
                proof {
                    assert(false);
                }
                self
            },
        }
    }
}

/// Either `a` precedes `b`, or `b` precedes `a`, or they are equal.
proof fn lemma_seq_lt_connected_or(a: Seq<char>, b: Seq<char>)
    ensures
        seq_lt(a, b) || seq_lt(b, a) || a == b,
{
    if !seq_lt(a, b) && !seq_lt(b, a) {
        lemma_seq_lt_connected(a, b);
    }
}

/// A mapping whose entries are an `entries_set` of a well-formed mapping
/// with a well-formed value is well-formed.
pub proof fn lemma_wf_from_entries_set(m: ParamModel, k: Seq<char>, v: ParamModel, r: ParamModel)
    requires
        m is Obj,
        m.wf(),
        v.wf(),
        r == ParamModel::Obj(entries_set(m.obj_entries(), k, v)),
    ensures
        r.wf(),
{
    lemma_entries_set_sorted(m.obj_entries(), k, v);
    let es = entries_set(m.obj_entries(), k, v);
    assert forall|i: int| 0 <= i < es.len() implies (#[trigger] es[i]).1.wf() by {
        if es[i].1 != v {
            let j = choose|j: int|
                0 <= j < m.obj_entries().len() && es[i] == #[trigger] m.obj_entries()[j];
            assert(m.obj_entries()[j].1.wf());
        }
    }
}



/// Binding a key in a well-formed mapping keeps it well-formed and acts
/// as insertion on the denoted mapping.
pub proof fn lemma_obj_set_model(m: ParamModel, k: Seq<char>, v: ParamModel)
    requires
        m is Obj,
        m.wf(),
        v.wf(),
    ensures
        m.obj_set(k, v) is Obj,
        m.obj_set(k, v).wf(),
        m.obj_set(k, v).obj_map() == m.obj_map().insert(k, v),
{
    assert(entries_sorted(m.obj_entries()));
    lemma_wf_from_entries_set(m, k, v, m.obj_set(k, v));
    lemma_entries_set_map(m.obj_entries(), k, v);
}

/// In a sorted entry sequence, a key of the denoted mapping appears at
/// some position, paired with the mapping's value for it.
pub proof fn lemma_sorted_lookup(es: Seq<(Seq<char>, ParamModel)>, k: Seq<char>)
    requires
        entries_sorted(es),
        entries_map(es).dom().contains(k),
    ensures
        exists|i: int| 0 <= i < es.len() && #[trigger] es[i] == (k, entries_map(es)[k]),
{
    lemma_entries_map_props(es);
    let i = choose|i: int| 0 <= i < es.len() && (#[trigger] es[i]).0 == k;
    assert forall|j: int| 0 <= j < i implies (#[trigger] es[j]).0 != es[i].0 by {
        if es[j].0 == es[i].0 {
            assert(seq_lt(es[j].0, es[i].0));
            lemma_seq_lt_irrefl(es[j].0);
        }
    }
    assert(entries_map(es)[es[i].0] == es[i].1);
    assert(es[i] == (k, entries_map(es)[k]));
}



/// When every adjacent pair of keys is ordered, every pair is.
pub proof fn lemma_lt_span(es: Seq<(Seq<char>, ParamModel)>, i: int, j: int)
    requires
        forall|m: int| 0 <= m < es.len() - 1 ==> seq_lt((#[trigger] es[m]).0, es[m + 1].0),
        0 <= i < j < es.len(),
    ensures
        seq_lt(es[i].0, es[j].0),
    decreases j - i,
{
    if j == i + 1 {
        assert(seq_lt(es[i].0, es[i + 1].0));
    } else {
        lemma_lt_span(es, i, j - 1);
        assert(seq_lt(es[j - 1].0, es[j].0));
        lemma_seq_lt_trans(es[i].0, es[j - 1].0, es[j].0);
    }
}

impl ParamValue {
    /// Whether this value is well-formed: every mapping's keys strictly
    /// sorted, at every depth.
    pub fn check_wf(&self) -> (r: bool)
        ensures
            r == self@.wf(),
        decreases *self,
    {
        match self {
            ParamValue::Bool(_) => true,
            ParamValue::Int(_) => true,
            ParamValue::Str(_) => true,
            ParamValue::Arr(items) => {
                let ghost ms = model_list(items@);
                proof {
                    lemma_model_list(items@);
                }
                let n = items.len();
                let mut i: usize = 0;
                let mut ok = true;
                loop
                    invariant_except_break
                        ok,
                    invariant
                        *self == ParamValue::Arr(*items),
                        n == items@.len(),
                        ms == model_list(items@),
                        ms.len() == n,
                        forall|j: int| 0 <= j < n ==> ms[j] == #[trigger] items@[j].model(),
                        i <= n,
                        forall|j: int| 0 <= j < i ==> (#[trigger] ms[j]).wf(),
                    ensures
                        ok ==> forall|j: int| 0 <= j < n ==> (#[trigger] ms[j]).wf(),
                        !ok ==> exists|j: int| 0 <= j < n && !(#[trigger] ms[j]).wf(),
                    decreases n - i,
                {
                    if i == n {
                        break;
                    }
                    proof {
                        assert(decreases_to!(*self => self->Arr_0));
                        assert(self->Arr_0 == *items);
                        assert(decreases_to!(*items => items@[i as int]));
                    }
                    if !items[i].check_wf() {
                        proof {
                            assert(!(ms[i as int]).wf());
                        }
                        ok = false;
                        break;
                    }
                    i = i + 1;
                }
                proof {
                    lemma_wf_list_pointwise(ms);
                    if !ok {
                        let j = choose|j: int| 0 <= j < n && !(#[trigger] ms[j]).wf();
                        assert(!(ms[j].wf()));
                    }
                }
                ok
            },
            ParamValue::Obj(entries) => {
                let ghost ms = model_entries(entries@);
                proof {
                    lemma_model_entries(entries@);
                }
                let n = entries.len();
                let mut i: usize = 0;
                let mut ok = true;
                loop
                    invariant_except_break
                        ok,
                    invariant
                        *self == ParamValue::Obj(*entries),
                        n == entries@.len(),
                        ms == model_entries(entries@),
                        ms.len() == n,
                        forall|j: int|
                            0 <= j < n ==> ms[j] == (
                                #[trigger] entries@[j].0@,
                                entries@[j].1.model(),
                            ),
                        i <= n,
                        forall|j: int| 0 <= j < i ==> (#[trigger] ms[j].1).wf(),
                        forall|j: int|
                            0 < j < i ==> seq_lt((#[trigger] ms[j - 1]).0, ms[j].0),
                    ensures
                        ok ==> (forall|j: int| 0 <= j < n ==> (#[trigger] ms[j].1).wf())
                            && (forall|j: int|
                            0 < j < n ==> seq_lt((#[trigger] ms[j - 1]).0, ms[j].0)),
                        !ok ==> !ParamModel::Obj(ms).wf(),
                    decreases n - i,
                {
                    if i == n {
                        break;
                    }
                    if i > 0 {
                        let in_order = crate::text::str_lt(
                            entries[i - 1].0.as_str(),
                            entries[i].0.as_str(),
                        );
                        if !in_order {
                            proof {
                                assert(!seq_lt(ms[i as int - 1].0, ms[i as int].0));
                                assert(!ParamModel::Obj(ms).wf()) by {
                                    if ParamModel::Obj(ms).wf() {
                                        assert(seq_lt(ms[i as int - 1].0, ms[i as int].0));
                                    }
                                }
                            }
                            ok = false;
                            break;
                        }
                    }
                    proof {
                        assert(decreases_to!(*self => self->Obj_0));
                        assert(self->Obj_0 == *entries);
                        assert(decreases_to!(*entries => entries@[i as int]));
                        assert(decreases_to!(entries@[i as int] => entries@[i as int].1));
                    }
                    if !entries[i].1.check_wf() {
                        proof {
                            assert(!(ms[i as int].1).wf());
                            assert(!ParamModel::Obj(ms).wf()) by {
                                if ParamModel::Obj(ms).wf() {
                                    assert((ms[i as int].1).wf());
                                }
                            }
                        }
                        ok = false;
                        break;
                    }
                    i = i + 1;
                }
                if ok {
                    proof {
                        assert forall|a: int, b: int| 0 <= a < b < n implies seq_lt(
                            (#[trigger] ms[a]).0,
                            (#[trigger] ms[b]).0,
                        ) by {
                            assert forall|m: int|
                                0 <= m < ms.len() - 1 implies seq_lt(
                                (#[trigger] ms[m]).0,
                                ms[m + 1].0,
                            ) by {
                                assert(seq_lt(ms[m + 1 - 1].0, ms[m + 1].0));
                            }
                            lemma_lt_span(ms, a, b);
                        }
                        assert(ParamModel::Obj(ms).wf());
                    }
                    true
                } else {
                    false
                }
            },
        }
    }
}




/// Two entry sequences with the same keys and the same scalar-or-nested
/// shape keep both under `entries_set`, when the two inserted values also
/// share that shape. The inserted value's own content plays no part.
pub proof fn lemma_entries_set_scalar_shape(
    es1: Seq<(Seq<char>, ParamModel)>,
    es2: Seq<(Seq<char>, ParamModel)>,
    k: Seq<char>,
    v1: ParamModel,
    v2: ParamModel,
)
    requires
        es1.len() == es2.len(),
        forall|i: int| 0 <= i < es1.len() ==> (#[trigger] es1[i]).0 == es2[i].0,
        forall|i: int|
            0 <= i < es1.len() ==> (#[trigger] es1[i]).1.is_scalar() == es2[i].1.is_scalar(),
        v1.is_scalar() == v2.is_scalar(),
    ensures
        entries_set(es1, k, v1).len() == entries_set(es2, k, v2).len(),
        forall|i: int|
            0 <= i < entries_set(es1, k, v1).len() ==> (#[trigger] entries_set(es1, k, v1)[i]).0
                == entries_set(es2, k, v2)[i].0,
        forall|i: int|
            0 <= i < entries_set(es1, k, v1).len() ==> (#[trigger] entries_set(
                es1,
                k,
                v1,
            )[i]).1.is_scalar() == entries_set(es2, k, v2)[i].1.is_scalar(),
    decreases es1.len(),
{
    let r1 = entries_set(es1, k, v1);
    let r2 = entries_set(es2, k, v2);
    if es1.len() == 0 {
        assert(r1[0] == (k, v1));
        assert(r2[0] == (k, v2));
    } else {
        assert(es1[0].0 == es2[0].0);
        if k == es1[0].0 {
            assert forall|i: int| 0 <= i < r1.len() implies (#[trigger] r1[i]).0 == r2[i].0 && (
            #[trigger] r1[i]).1.is_scalar() == r2[i].1.is_scalar() by {
                if i > 0 {
                    assert(r1[i] == es1[i]);
                    assert(r2[i] == es2[i]);
                    assert(es1[i].0 == es2[i].0);
                    assert(es1[i].1.is_scalar() == es2[i].1.is_scalar());
                }
            }
        } else if seq_lt(k, es1[0].0) {
            assert forall|i: int| 0 <= i < r1.len() implies (#[trigger] r1[i]).0 == r2[i].0 && (
            #[trigger] r1[i]).1.is_scalar() == r2[i].1.is_scalar() by {
                if i > 0 {
                    assert(r1[i] == es1[i - 1]);
                    assert(r2[i] == es2[i - 1]);
                    assert(es1[i - 1].0 == es2[i - 1].0);
                    assert(es1[i - 1].1.is_scalar() == es2[i - 1].1.is_scalar());
                }
            }
        } else {
            assert forall|i: int| 0 <= i < es1.skip(1).len() implies (#[trigger] es1.skip(1)[i]).0
                == es2.skip(1)[i].0 && (#[trigger] es1.skip(1)[i]).1.is_scalar() == es2.skip(
                1,
            )[i].1.is_scalar() by {
                assert(es1.skip(1)[i] == es1[i + 1]);
                assert(es2.skip(1)[i] == es2[i + 1]);
                assert(es1[i + 1].0 == es2[i + 1].0);
                assert(es1[i + 1].1.is_scalar() == es2[i + 1].1.is_scalar());
            }
            lemma_entries_set_scalar_shape(es1.skip(1), es2.skip(1), k, v1, v2);
            let t1 = entries_set(es1.skip(1), k, v1);
            let t2 = entries_set(es2.skip(1), k, v2);
            assert forall|i: int| 0 <= i < r1.len() implies (#[trigger] r1[i]).0 == r2[i].0 && (
            #[trigger] r1[i]).1.is_scalar() == r2[i].1.is_scalar() by {
                if i == 0 {
                    assert(r1[0] == es1[0]);
                    assert(r2[0] == es2[0]);
                    assert(es1[0].1.is_scalar() == es2[0].1.is_scalar());
                } else {
                    assert(r1[i] == t1[i - 1]);
                    assert(r2[i] == t2[i - 1]);
                }
            }
        }
    }
}


} // verus!

