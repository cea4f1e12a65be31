//! The canonical encoder: one deterministic string for a parameter
//! structure, independent of how its mappings were built up. The encoding
//! is the sole input of request signing.

use vstd::prelude::*;

use crate::params::{
    entries_sorted, lemma_model_entries, lemma_model_list, lemma_sorted_entries_unique,
    model_entries, model_list, ParamModel, ParamValue,
};
use crate::text::{dec_int, i64_to_dec, push_char};

verus! {

/// The canonical encoding of a value: scalars as their bare text, a
/// sequence as its encoded elements joined by `&` inside brackets, a
/// mapping as `key=value` pairs joined by `&` in key order.
pub open spec fn encode_value(m: ParamModel) -> Seq<char>
    decreases m,
{
    match m {
        ParamModel::Bool(b) => if b {
            "true"@
        } else {
            "false"@
        },
        ParamModel::Int(n) => dec_int(n),
        ParamModel::Str(s) => s,
        ParamModel::Arr(items) => seq!['['] + encode_items(items) + seq![']'],
        ParamModel::Obj(entries) => encode_entries(entries),
    }
}

/// Encoded sequence elements joined by `&`.
pub open spec fn encode_items(items: Seq<ParamModel>) -> Seq<char>
    decreases items,
{
    if items.len() == 0 {
        Seq::empty()
    } else if items.len() == 1 {
        encode_value(items[0])
    } else {
        encode_value(items[0]) + seq!['&'] + encode_items(items.skip(1))
    }
}

/// Encoded `key=value` entries joined by `&`.
pub open spec fn encode_entries(entries: Seq<(Seq<char>, ParamModel)>) -> Seq<char>
    decreases entries,
{
    if entries.len() == 0 {
        Seq::empty()
    } else if entries.len() == 1 {
        entries[0].0 + seq!['='] + encode_value(entries[0].1)
    } else {
        entries[0].0 + seq!['='] + encode_value(entries[0].1) + seq!['&'] + encode_entries(
            entries.skip(1),
        )
    }
}

/// Extending the encoded prefix of a sequence by one element.
pub proof fn lemma_encode_items_snoc(items: Seq<ParamModel>, i: int)
    requires
        0 <= i < items.len(),
    ensures
        encode_items(items.take(i + 1)) == if i == 0 {
            encode_value(items[0])
        } else {
            encode_items(items.take(i)) + seq!['&'] + encode_value(items[i])
        },
    decreases i,
{
    let t = items.take(i + 1);
    if i == 0 {
        assert(t.len() == 1);
        assert(t[0] == items[0]);
        assert(encode_items(t) =~= encode_value(items[0]));
    } else {
        assert(t.len() >= 2);
        assert(t[0] == items[0]);
        assert(t.skip(1) =~= items.skip(1).take(i));
        lemma_encode_items_snoc(items.skip(1), i - 1);
        assert(items.skip(1)[i - 1] == items[i]);
        if i == 1 {
            assert(items.skip(1)[0] == items[1]);
            assert(items.take(1).len() == 1);
            assert(items.take(1)[0] == items[0]);
            assert(encode_items(items.take(1)) == encode_value(items[0]));
            assert(encode_items(t) =~= encode_items(items.take(i)) + seq!['&'] + encode_value(
                items[i],
            ));
        } else {
            assert(items.take(i).len() >= 2);
            assert(items.take(i)[0] == items[0]);
            assert(items.take(i).skip(1) =~= items.skip(1).take(i - 1));
            assert(encode_items(t) =~= encode_items(items.take(i)) + seq!['&'] + encode_value(
                items[i],
            ));
        }
    }
}

/// Extending the encoded prefix of a mapping by one entry.
pub proof fn lemma_encode_entries_snoc(entries: Seq<(Seq<char>, ParamModel)>, i: int)
    requires
        0 <= i < entries.len(),
    ensures
        encode_entries(entries.take(i + 1)) == if i == 0 {
            entries[0].0 + seq!['='] + encode_value(entries[0].1)
        } else {
            encode_entries(entries.take(i)) + seq!['&'] + (entries[i].0 + seq!['=']
                + encode_value(entries[i].1))
        },
    decreases i,
{
    let t = entries.take(i + 1);
    if i == 0 {
        assert(t.len() == 1);
        assert(t[0] == entries[0]);
        assert(encode_entries(t) =~= entries[0].0 + seq!['='] + encode_value(entries[0].1));
    } else {
        assert(t.len() >= 2);
        assert(t[0] == entries[0]);
        assert(t.skip(1) =~= entries.skip(1).take(i));
        lemma_encode_entries_snoc(entries.skip(1), i - 1);
        assert(entries.skip(1)[i - 1] == entries[i]);
        if i == 1 {
            assert(entries.skip(1)[0] == entries[1]);
            assert(entries.take(1).len() == 1);
            assert(entries.take(1)[0] == entries[0]);
            assert(encode_entries(entries.take(1)) == entries[0].0 + seq!['='] + encode_value(
                entries[0].1,
            ));
            assert(encode_entries(t) =~= encode_entries(entries.take(i)) + seq!['&'] + (
            entries[i].0 + seq!['='] + encode_value(entries[i].1)));
        } else {
            assert(entries.take(i).len() >= 2);
            assert(entries.take(i)[0] == entries[0]);
            assert(entries.take(i).skip(1) =~= entries.skip(1).take(i - 1));
            assert(encode_entries(t) =~= encode_entries(entries.take(i)) + seq!['&'] + (
            entries[i].0 + seq!['='] + encode_value(entries[i].1)));
        }
    }
}

/// The canonical encoding of a parameter value.
pub fn canonical_encode(v: &ParamValue) -> (r: String)
    ensures
        r@ == encode_value(v@),
    decreases *v,
{
    match v {
        ParamValue::Bool(b) => {
            if *b {
                String::from_str("true")
            } else {
                String::from_str("false")
            }
        },
        ParamValue::Int(n) => i64_to_dec(*n),
        ParamValue::Str(s) => s.clone(),
        ParamValue::Arr(items) => {
            let ghost ms = model_list(items@);
            proof {
                lemma_model_list(items@);
            }
            let mut out = String::new();
            push_char(&mut out, '[');
            let n = items.len();
            let mut idx: usize = 0;
            proof {
                assert(ms.take(0) =~= Seq::<ParamModel>::empty());
                assert(out@ =~= seq!['['] + encode_items(ms.take(0)));
            }
            while idx < n
                invariant
                    *v == ParamValue::Arr(*items),
                    n == items@.len(),
                    ms == model_list(items@),
                    ms.len() == n,
                    forall|j: int| 0 <= j < n ==> ms[j] == #[trigger] items@[j].model(),
                    idx <= n,
                    out@ == seq!['['] + encode_items(ms.take(idx as int)),
                decreases n - idx,
            {
                if idx > 0 {
                    push_char(&mut out, '&');
                }
                proof {
                    assert(decreases_to!(*v => v->Arr_0));
                    assert(v->Arr_0 == *items);
                    assert(decreases_to!(*items => items@[idx as int]));
                }
                let piece = canonical_encode(&items[idx]);
                out.append(piece.as_str());
                proof {
                    lemma_encode_items_snoc(ms, idx as int);
                    assert(out@ =~= seq!['['] + encode_items(ms.take(idx as int + 1)));
                }
                idx = idx + 1;
            }
            push_char(&mut out, ']');
            proof {
                assert(ms.take(n as int) =~= ms);
                assert(out@ =~= seq!['['] + encode_items(ms) + seq![']']);
            }
            out
        },
        ParamValue::Obj(entries) => {
            let ghost ms = model_entries(entries@);
            proof {
                lemma_model_entries(entries@);
            }
            let mut out = String::new();
            let n = entries.len();
            let mut idx: usize = 0;
            proof {
                assert(ms.take(0) =~= Seq::<(Seq<char>, ParamModel)>::empty());
                assert(out@ =~= encode_entries(ms.take(0)));
            }
            while idx < n
                invariant
                    *v == ParamValue::Obj(*entries),
                    n == entries@.len(),
                    ms == model_entries(entries@),
                    ms.len() == n,
                    forall|j: int|
                        0 <= j < n ==> ms[j] == (#[trigger] entries@[j].0@, entries@[j].1.model()),
                    idx <= n,
                    out@ == encode_entries(ms.take(idx as int)),
                decreases n - idx,
            {
                if idx > 0 {
                    push_char(&mut out, '&');
                }
                out.append(entries[idx].0.as_str());
                push_char(&mut out, '=');
                proof {
                    assert(decreases_to!(*v => v->Obj_0));
                    assert(v->Obj_0 == *entries);
                    assert(decreases_to!(*entries => entries@[idx as int]));
                    assert(decreases_to!(entries@[idx as int] => entries@[idx as int].1));
                }
                let piece = canonical_encode(&entries[idx].1);
                out.append(piece.as_str());
                proof {
                    lemma_encode_entries_snoc(ms, idx as int);
                    assert(out@ =~= encode_entries(ms.take(idx as int + 1)));
                }
                idx = idx + 1;
            }
            proof {
                assert(ms.take(n as int) =~= ms);
            }
            out
        },
    }
}

/// Canonical encoding is invariant under the order in which a mapping's
/// keys were bound: two well-formed mappings that denote the same
/// key-to-value mapping encode identically.
pub proof fn lemma_encode_key_order_independent(a: ParamModel, b: ParamModel)
    requires
        a.wf(),
        b.wf(),
        a is Obj,
        b is Obj,
        a.obj_map() == b.obj_map(),
    ensures
        encode_value(a) == encode_value(b),
{
    assert(entries_sorted(a.obj_entries()));
    assert(entries_sorted(b.obj_entries()));
    lemma_sorted_entries_unique(a.obj_entries(), b.obj_entries());
    assert(a == b);
}

} // verus!
