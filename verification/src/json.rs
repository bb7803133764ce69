//! The JSON text of stored records: strings, numbers and lists of them.

use vstd::prelude::*;
use crate::outside::{json_number, json_string, json_string_text};
use crate::text::{decimal, push_text};
use crate::types::texts;

verus! {

/// The texts `items`, with a comma between each two of them.
pub open spec fn comma_separated(items: Seq<Seq<char>>) -> Seq<char>
    decreases items.len(),
{
    if items.len() == 0 {
        Seq::empty()
    } else if items.len() == 1 {
        items[0]
    } else {
        comma_separated(items.drop_last()) + ","@ + items.last()
    }
}

/// The JSON array whose elements are the texts `items`.
pub open spec fn json_array(items: Seq<Seq<char>>) -> Seq<char> {
    "["@ + comma_separated(items) + "]"@
}

/// The JSON array of the strings `v`.
pub open spec fn json_texts(v: Seq<Seq<char>>) -> Seq<char> {
    json_array(v.map_values(|s: Seq<char>| json_string_text(s)))
}

/// The JSON array of the numbers that the bytes `v` are.
pub open spec fn json_bytes(v: Seq<u8>) -> Seq<char> {
    json_array(v.map_values(|b: u8| decimal(b as nat)))
}

/// Adding one more text to a list adds a comma and the text, or the text
/// alone where the list was empty.
pub proof fn lemma_comma_separated_step(items: Seq<Seq<char>>, i: int)
    requires
        0 <= i < items.len(),
    ensures
        comma_separated(items.take(i + 1)) == if i == 0 {
            items[i]
        } else {
            comma_separated(items.take(i)) + ","@ + items[i]
        },
{
    assert(items.take(i + 1).drop_last() =~= items.take(i));
    assert(items.take(i + 1).last() == items[i]);
    if i == 0 {
        assert(items.take(1)[0] == items[0]);
    }
}

/// Appends the JSON text of the string `s` to `out`.
pub fn push_json_string(out: &mut String, s: &str)
    ensures
        final(out)@ == old(out)@ + json_string_text(s@),
{
    let text = json_string(s).unwrap();
    push_text(out, text.as_str());
}

/// Appends the JSON text of the number `n` to `out`.
pub fn push_json_number(out: &mut String, n: u64)
    ensures
        final(out)@ == old(out)@ + decimal(n as nat),
{
    let text = json_number(n).unwrap();
    push_text(out, text.as_str());
}

/// Appends the JSON array of the strings `v` to `out`.
pub fn push_json_texts(out: &mut String, v: &Vec<String>)
    ensures
        final(out)@ == old(out)@ + json_texts(texts(v@)),
{
    let ghost items = texts(v@).map_values(|s: Seq<char>| json_string_text(s));
    push_text(out, "[");
    let mut i: usize = 0;
    assert(out@ =~= old(out)@ + "["@ + comma_separated(items.take(0)));
    while i < v.len()
        invariant
            i <= v.len(),
            items == texts(v@).map_values(|s: Seq<char>| json_string_text(s)),
            out@ == old(out)@ + "["@ + comma_separated(items.take(i as int)),
        decreases v.len() - i,
    {
        proof {
            lemma_comma_separated_step(items, i as int);
            assert(items[i as int] == json_string_text(v@[i as int]@));
        }
        if i > 0 {
            push_text(out, ",");
        }
        push_json_string(out, v[i].as_str());
        i = i + 1;
        assert(out@ =~= old(out)@ + "["@ + comma_separated(items.take(i as int)));
    }
    assert(items.take(v.len() as int) =~= items);
    push_text(out, "]");
    assert(out@ =~= old(out)@ + json_texts(texts(v@)));
}

/// Appends the JSON array of the bytes `v` to `out`.
pub fn push_json_bytes(out: &mut String, v: &Vec<u8>)
    ensures
        final(out)@ == old(out)@ + json_bytes(v@),
{
    let ghost items = v@.map_values(|b: u8| decimal(b as nat));
    push_text(out, "[");
    let mut i: usize = 0;
    assert(out@ =~= old(out)@ + "["@ + comma_separated(items.take(0)));
    while i < v.len()
        invariant
            i <= v.len(),
            items == v@.map_values(|b: u8| decimal(b as nat)),
            out@ == old(out)@ + "["@ + comma_separated(items.take(i as int)),
        decreases v.len() - i,
    {
        proof {
            lemma_comma_separated_step(items, i as int);
        }
        if i > 0 {
            push_text(out, ",");
        }
        push_json_number(out, v[i] as u64);
        i = i + 1;
        assert(out@ =~= old(out)@ + "["@ + comma_separated(items.take(i as int)));
    }
    assert(items.take(v.len() as int) =~= items);
    push_text(out, "]");
    assert(out@ =~= old(out)@ + json_bytes(v@));
}

} // verus!
