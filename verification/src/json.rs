//! Rendering a parameter structure as JSON text, for request bodies.

use vstd::prelude::*;

use crate::params::{lemma_model_entries, lemma_model_list, model_entries, model_list, ParamModel, ParamValue};
use crate::text::{dec_int, digit_char, i64_to_dec, push_char};

verus! {

/// One lowercase hexadecimal digit character.
pub open spec fn hex_digit_char(n: nat) -> char {
    if n < 10 {
        digit_char(n)
    } else if n == 10 {
        'a'
    } else if n == 11 {
        'b'
    } else if n == 12 {
        'c'
    } else if n == 13 {
        'd'
    } else if n == 14 {
        'e'
    } else {
        'f'
    }
}

/// The JSON escape of one character inside a string literal.
pub open spec fn escape_char(c: char) -> Seq<char> {
    if c == '"' {
        seq!['\\', '"']
    } else if c == '\\' {
        seq!['\\', '\\']
    } else if c == '\n' {
        seq!['\\', 'n']
    } else if c == '\r' {
        seq!['\\', 'r']
    } else if c == '\t' {
        seq!['\\', 't']
    } else if (c as u32) < 0x20 {
        seq!['\\', 'u', '0', '0', hex_digit_char((c as u32 / 16) as nat), hex_digit_char(
            (c as u32 % 16) as nat,
        )]
    } else {
        seq![c]
    }
}

/// The JSON escape of a whole text.
pub open spec fn escape_text(s: Seq<char>) -> Seq<char>
    decreases s.len(),
{
    if s.len() == 0 {
        Seq::empty()
    } else {
        escape_char(s[0]) + escape_text(s.skip(1))
    }
}

/// Extending an escaped prefix by one character.
pub proof fn lemma_escape_text_snoc(s: Seq<char>, i: int)
    requires
        0 <= i < s.len(),
    ensures
        escape_text(s.take(i + 1)) == escape_text(s.take(i)) + escape_char(s[i]),
    decreases i,
{
    let t = s.take(i + 1);
    if i == 0 {
        assert(t[0] == s[0]);
        assert(t.skip(1) =~= Seq::<char>::empty());
        assert(s.take(0) =~= Seq::<char>::empty());
        assert(escape_text(t) =~= escape_text(s.take(0)) + escape_char(s[0]));
    } else {
        assert(t[0] == s[0]);
        assert(t.skip(1) =~= s.skip(1).take(i));
        lemma_escape_text_snoc(s.skip(1), i - 1);
        assert(s.skip(1)[i - 1] == s[i]);
        assert(s.take(i)[0] == s[0]);
        assert(s.take(i).skip(1) =~= s.skip(1).take(i - 1));
        assert(escape_text(t) =~= escape_text(s.take(i)) + escape_char(s[i]));
    }
}

/// The JSON text of a value: scalars as literals, strings quoted and
/// escaped, sequences in brackets with commas, mappings in braces with
/// quoted keys, in the stored key order.
pub open spec fn json_value(m: ParamModel) -> Seq<char>
    decreases m,
{
    match m {
        ParamModel::Bool(b) => if b {
            "true"@
        } else {
            "false"@
        },
        ParamModel::Int(n) => dec_int(n),
        ParamModel::Str(s) => seq!['"'] + escape_text(s) + seq!['"'],
        ParamModel::Arr(items) => seq!['['] + json_items(items) + seq![']'],
        ParamModel::Obj(entries) => seq!['{'] + json_entries(entries) + seq!['}'],
    }
}

/// JSON sequence elements joined by commas.
pub open spec fn json_items(items: Seq<ParamModel>) -> Seq<char>
    decreases items,
{
    if items.len() == 0 {
        Seq::empty()
    } else if items.len() == 1 {
        json_value(items[0])
    } else {
        json_value(items[0]) + seq![','] + json_items(items.skip(1))
    }
}

/// One JSON mapping entry: the quoted, escaped key, a colon, the value.
pub open spec fn json_entry(e: (Seq<char>, ParamModel)) -> Seq<char>
    decreases e,
{
    seq!['"'] + escape_text(e.0) + seq!['"', ':'] + json_value(e.1)
}

/// JSON mapping entries joined by commas.
pub open spec fn json_entries(entries: Seq<(Seq<char>, ParamModel)>) -> Seq<char>
    decreases entries,
{
    if entries.len() == 0 {
        Seq::empty()
    } else if entries.len() == 1 {
        json_entry(entries[0])
    } else {
        json_entry(entries[0]) + seq![','] + json_entries(entries.skip(1))
    }
}

/// Extending rendered sequence elements by one.
pub proof fn lemma_json_items_snoc(items: Seq<ParamModel>, i: int)
    requires
        0 <= i < items.len(),
    ensures
        json_items(items.take(i + 1)) == if i == 0 {
            json_value(items[0])
        } else {
            json_items(items.take(i)) + seq![','] + json_value(items[i])
        },
    decreases i,
{
    let t = items.take(i + 1);
    if i == 0 {
        assert(t.len() == 1);
        assert(t[0] == items[0]);
        assert(json_items(t) =~= json_value(items[0]));
    } else {
        assert(t[0] == items[0]);
        assert(t.skip(1) =~= items.skip(1).take(i));
        lemma_json_items_snoc(items.skip(1), i - 1);
        assert(items.skip(1)[i - 1] == items[i]);
        if i == 1 {
            assert(items.take(1).len() == 1);
            assert(items.take(1)[0] == items[0]);
            assert(json_items(items.take(1)) == json_value(items[0]));
            assert(json_items(t) =~= json_items(items.take(i)) + seq![','] + json_value(items[i]));
        } else {
            assert(items.take(i).len() >= 2);
            assert(items.take(i)[0] == items[0]);
            assert(items.take(i).skip(1) =~= items.skip(1).take(i - 1));
            assert(json_items(t) =~= json_items(items.take(i)) + seq![','] + json_value(items[i]));
        }
    }
}

/// Extending rendered mapping entries by one.
pub proof fn lemma_json_entries_snoc(entries: Seq<(Seq<char>, ParamModel)>, i: int)
    requires
        0 <= i < entries.len(),
    ensures
        json_entries(entries.take(i + 1)) == if i == 0 {
            json_entry(entries[0])
        } else {
            json_entries(entries.take(i)) + seq![','] + json_entry(entries[i])
        },
    decreases i,
{
    let t = entries.take(i + 1);
    if i == 0 {
        assert(t.len() == 1);
        assert(t[0] == entries[0]);
        assert(json_entries(t) =~= json_entry(entries[0]));
    } else {
        assert(t[0] == entries[0]);
        assert(t.skip(1) =~= entries.skip(1).take(i));
        lemma_json_entries_snoc(entries.skip(1), i - 1);
        assert(entries.skip(1)[i - 1] == entries[i]);
        if i == 1 {
            assert(entries.take(1).len() == 1);
            assert(entries.take(1)[0] == entries[0]);
            assert(json_entries(entries.take(1)) == json_entry(entries[0]));
            assert(json_entries(t) =~= json_entries(entries.take(i)) + seq![','] + json_entry(
                entries[i],
            ));
        } else {
            assert(entries.take(i).len() >= 2);
            assert(entries.take(i)[0] == entries[0]);
            assert(entries.take(i).skip(1) =~= entries.skip(1).take(i - 1));
            assert(json_entries(t) =~= json_entries(entries.take(i)) + seq![','] + json_entry(
                entries[i],
            ));
        }
    }
}

/// One lowercase hexadecimal digit character.
fn hex_digit_char_exec(n: u32) -> (c: char)
    requires
        n < 16,
    ensures
        c == hex_digit_char(n as nat),
{
    if n == 0 {
        '0'
    } else if n == 1 {
        '1'
    } else if n == 2 {
        '2'
    } else if n == 3 {
        '3'
    } else if n == 4 {
        '4'
    } else if n == 5 {
        '5'
    } else if n == 6 {
        '6'
    } else if n == 7 {
        '7'
    } else if n == 8 {
        '8'
    } else if n == 9 {
        '9'
    } else if n == 10 {
        'a'
    } else if n == 11 {
        'b'
    } else if n == 12 {
        'c'
    } else if n == 13 {
        'd'
    } else if n == 14 {
        'e'
    } else {
        'f'
    }
}

/// Append the JSON escape of one character.
fn push_escaped(out: &mut String, c: char)
    ensures
        final(out)@ == old(out)@ + escape_char(c),
{
    if c == '"' {
        push_char(out, '\\');
        push_char(out, '"');
    } else if c == '\\' {
        push_char(out, '\\');
        push_char(out, '\\');
    } else if c == '\n' {
        push_char(out, '\\');
        push_char(out, 'n');
    } else if c == '\r' {
        push_char(out, '\\');
        push_char(out, 'r');
    } else if c == '\t' {
        push_char(out, '\\');
        push_char(out, 't');
    } else if (c as u32) < 0x20 {
        push_char(out, '\\');
        push_char(out, 'u');
        push_char(out, '0');
        push_char(out, '0');
        push_char(out, hex_digit_char_exec(c as u32 / 16));
        push_char(out, hex_digit_char_exec(c as u32 % 16));
    } else {
        push_char(out, c);
    }
    proof {
        assert(final(out)@ =~= old(out)@ + escape_char(c));
    }
}

/// Append the quoted, escaped JSON form of a string.
fn append_quoted(out: &mut String, s: &str)
    ensures
        final(out)@ == old(out)@ + seq!['"'] + escape_text(s@) + seq!['"'],
{
    push_char(out, '"');
    let n = s.unicode_len();
    let mut i: usize = 0;
    proof {
        assert(s@.take(0) =~= Seq::<char>::empty());
        assert(out@ =~= old(out)@ + seq!['"'] + escape_text(s@.take(0)));
    }
    while i < n
        invariant
            n == s@.len(),
            i <= n,
            out@ == old(out)@ + seq!['"'] + escape_text(s@.take(i as int)),
        decreases n - i,
    {
        let c = s.get_char(i);
        push_escaped(out, c);
        proof {
            lemma_escape_text_snoc(s@, i as int);
            assert(out@ =~= old(out)@ + seq!['"'] + escape_text(s@.take(i as int + 1)));
        }
        i = i + 1;
    }
    push_char(out, '"');
    proof {
        assert(s@.take(n as int) =~= s@);
        assert(out@ =~= old(out)@ + seq!['"'] + escape_text(s@) + seq!['"']);
    }
}

/// The JSON text of a parameter value.
pub fn json_render(v: &ParamValue) -> (r: String)
    ensures
        r@ == json_value(v@),
    decreases *v,
{
    match v {
        ParamValue::Bool(b) => {
            if *b {
                String::from_str("true")
            } else {
                String::from_str("false")
            }
        },
        ParamValue::Int(n) => i64_to_dec(*n),
        ParamValue::Str(s) => {
            let mut out = String::new();
            append_quoted(&mut out, s.as_str());
            proof {
                assert(out@ =~= json_value(v@));
            }
            out
        },
        ParamValue::Arr(items) => {
            let ghost ms = model_list(items@);
            proof {
                lemma_model_list(items@);
            }
            let mut out = String::new();
            push_char(&mut out, '[');
            let n = items.len();
            let mut idx: usize = 0;
            proof {
                assert(ms.take(0) =~= Seq::<ParamModel>::empty());
                assert(out@ =~= seq!['['] + json_items(ms.take(0)));
            }
            while idx < n
                invariant
                    *v == ParamValue::Arr(*items),
                    n == items@.len(),
                    ms == model_list(items@),
                    ms.len() == n,
                    forall|j: int| 0 <= j < n ==> ms[j] == #[trigger] items@[j].model(),
                    idx <= n,
                    out@ == seq!['['] + json_items(ms.take(idx as int)),
                decreases n - idx,
            {
                if idx > 0 {
                    push_char(&mut out, ',');
                }
                proof {
                    assert(decreases_to!(*v => v->Arr_0));
                    assert(v->Arr_0 == *items);
                    assert(decreases_to!(*items => items@[idx as int]));
                }
                let piece = json_render(&items[idx]);
                out.append(piece.as_str());
                proof {
                    lemma_json_items_snoc(ms, idx as int);
                    assert(out@ =~= seq!['['] + json_items(ms.take(idx as int + 1)));
                }
                idx = idx + 1;
            }
            push_char(&mut out, ']');
            proof {
                assert(ms.take(n as int) =~= ms);
                assert(out@ =~= seq!['['] + json_items(ms) + seq![']']);
            }
            out
        },
        ParamValue::Obj(entries) => {
            let ghost ms = model_entries(entries@);
            proof {
                lemma_model_entries(entries@);
            }
            let mut out = String::new();
            push_char(&mut out, '{');
            let n = entries.len();
            let mut idx: usize = 0;
            proof {
                assert(ms.take(0) =~= Seq::<(Seq<char>, ParamModel)>::empty());
                assert(out@ =~= seq!['{'] + json_entries(ms.take(0)));
            }
            while idx < n
                invariant
                    *v == ParamValue::Obj(*entries),
                    n == entries@.len(),
                    ms == model_entries(entries@),
                    ms.len() == n,
                    forall|j: int|
                        0 <= j < n ==> ms[j] == (#[trigger] entries@[j].0@, entries@[j].1.model()),
                    idx <= n,
                    out@ == seq!['{'] + json_entries(ms.take(idx as int)),
                decreases n - idx,
            {
                if idx > 0 {
                    push_char(&mut out, ',');
                }
                append_quoted(&mut out, entries[idx].0.as_str());
                push_char(&mut out, ':');
                proof {
                    assert(decreases_to!(*v => v->Obj_0));
                    assert(v->Obj_0 == *entries);
                    assert(decreases_to!(*entries => entries@[idx as int]));
                    assert(decreases_to!(entries@[idx as int] => entries@[idx as int].1));
                }
                let piece = json_render(&entries[idx].1);
                out.append(piece.as_str());
                proof {
                    lemma_json_entries_snoc(ms, idx as int);
                    assert(out@ =~= seq!['{'] + json_entries(ms.take(idx as int + 1)));
                }
                idx = idx + 1;
            }
            push_char(&mut out, '}');
            proof {
                assert(ms.take(n as int) =~= ms);
                assert(out@ =~= seq!['{'] + json_entries(ms) + seq!['}']);
            }
            out
        },
    }
}

} // verus!
