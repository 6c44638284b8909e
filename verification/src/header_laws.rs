//! What becomes of the header fields of a response.
use vstd::prelude::*;

use crate::outside::canonical_reason;
use crate::response::{
    as_text, coding_field, field_map, field_texts, status_text, text_or_empty,
};
use crate::text::{decimal, decimal_reads_back, lower_case, number, optional_text};

verus! {

/// Whether `bytes` can be read as text: each of them is a visible ASCII character, a
/// space or a tab.
pub open spec fn reads_as_text(bytes: Seq<u8>) -> bool {
    forall|i: int| 0 <= i < bytes.len() ==> 32 <= #[trigger] bytes[i] <= 126 || bytes[i] == 9
}

/// Whether `text` is the value `bytes` as a caller sees it: character for byte, or empty
/// where the bytes cannot be read as text.
pub open spec fn is_value(text: Seq<char>, bytes: Seq<u8>) -> bool {
    if reads_as_text(bytes) {
        text.len() == bytes.len() && forall|i: int|
            0 <= i < bytes.len() ==> (#[trigger] text[i]) as int == bytes[i] as int
    } else {
        text.len() == 0
    }
}

/// Every field keeps its place and its name, and has a text exactly if its value can be
/// read as one.
pub proof fn fields_keep_their_places(fields: Seq<(Seq<char>, Seq<u8>)>)
    ensures
        as_text(fields).len() == fields.len(),
        forall|i: int|
            0 <= i < fields.len() ==> {
                let field = #[trigger] as_text(fields)[i];
                &&& field.0 == fields[i].0
                &&& field.1 is Some <==> reads_as_text(fields[i].1)
                &&& is_value(text_or_empty(field.1), fields[i].1)
            },
{
    assert forall|i: int| 0 <= i < fields.len() implies ({
        let field = #[trigger] as_text(fields)[i];
        &&& field.0 == fields[i].0
        &&& field.1 is Some <==> reads_as_text(fields[i].1)
        &&& is_value(text_or_empty(field.1), fields[i].1)
    }) by {
        let bytes = fields[i].1;
        if crate::response::is_visible(bytes) {
            assert forall|k: int| 0 <= k < bytes.len() implies 32 <= #[trigger] bytes[k] <= 126
                || bytes[k] == 9 by {}
        } else {
            let k = choose|k: int|
                0 <= k < bytes.len() && !(32 <= #[trigger] bytes[k] < 127 || bytes[k] == 9);
            assert(!(32 <= bytes[k] <= 126 || bytes[k] == 9));
        }
    }
}

/// The fields that the library collects are those it was handed, each with its text.
pub proof fn texts_keep_their_places(fields: Seq<(String, Option<String>)>)
    ensures
        field_texts(fields).len() == fields.len(),
        forall|i: int|
            0 <= i < fields.len() ==> {
                let field = #[trigger] field_texts(fields)[i];
                &&& field.0 == fields[i].0@
                &&& fields[i].1 matches Some(text) ==> field.1 == Some(text@)
                &&& fields[i].1 is None ==> field.1 is None
            },
{
}

/// However many fields there are, each of their names has a value and no other name has
/// one.
pub proof fn every_name_has_a_value(
    fields: Seq<(Seq<char>, Option<Seq<char>>)>,
    name: Seq<char>,
)
    ensures
        field_map(fields).contains_key(name) <==> exists|i: int|
            0 <= i < fields.len() && (#[trigger] fields[i]).0 == name,
    decreases fields.len(),
{
    if fields.len() > 0 {
        let front = fields.drop_last();
        every_name_has_a_value(front, name);
        if fields.last().0 == name {
            assert(fields[fields.len() - 1].0 == name);
        } else {
            if exists|i: int| 0 <= i < fields.len() && (#[trigger] fields[i]).0 == name {
                let i = choose|i: int| 0 <= i < fields.len() && (#[trigger] fields[i]).0 == name;
                assert(front[i].0 == name);
            }
            if exists|i: int| 0 <= i < front.len() && (#[trigger] front[i]).0 == name {
                let i = choose|i: int| 0 <= i < front.len() && (#[trigger] front[i]).0 == name;
                assert(fields[i].0 == name);
            }
        }
    }
}

/// The value of a name is that of the last field that bears it; a value that is no text
/// counts as empty.
pub proof fn the_last_value_counts(fields: Seq<(Seq<char>, Option<Seq<char>>)>, i: int)
    requires
        0 <= i < fields.len(),
        forall|j: int| i < j < fields.len() ==> (#[trigger] fields[j]).0 != fields[i].0,
    ensures
        field_map(fields).contains_key(fields[i].0),
        fields[i].1 matches Some(text) ==> field_map(fields)[fields[i].0] == text,
        fields[i].1 is None ==> field_map(fields)[fields[i].0].len() == 0,
    decreases fields.len(),
{
    if i < fields.len() - 1 {
        let front = fields.drop_last();
        assert(fields[fields.len() - 1].0 != fields[i].0);
        assert forall|j: int| i < j < front.len() implies (#[trigger] front[j]).0
            != front[i].0 by {
            assert(front[j] == fields[j]);
        }
        the_last_value_counts(front, i);
    }
}

/// Whether `headers` hold each name among `fields` and no other, each with the value of
/// the last field that bears it.
pub open spec fn holds_fields(
    headers: Map<Seq<char>, Seq<char>>,
    fields: Seq<(Seq<char>, Seq<u8>)>,
) -> bool {
    &&& forall|name: Seq<char>| #[trigger]
        headers.contains_key(name) <==> exists|i: int|
            0 <= i < fields.len() && (#[trigger] fields[i]).0 == name
    &&& forall|i: int|
        0 <= i < fields.len() && (forall|j: int|
            i < j < fields.len() ==> (#[trigger] fields[j]).0 != fields[i].0)
            ==> headers.contains_key((#[trigger] fields[i]).0) && is_value(
            headers[fields[i].0],
            fields[i].1,
        )
}

/// The headers of a response hold every field that came, however many there are.
pub proof fn headers_hold_every_field(fields: Seq<(Seq<char>, Seq<u8>)>)
    ensures
        holds_fields(field_map(as_text(fields)), fields),
{
    let texts = as_text(fields);
    let headers = field_map(texts);
    fields_keep_their_places(fields);
    assert forall|name: Seq<char>| #[trigger]
        headers.contains_key(name) <==> exists|i: int|
            0 <= i < fields.len() && (#[trigger] fields[i]).0 == name by {
        every_name_has_a_value(texts, name);
        if exists|i: int| 0 <= i < texts.len() && (#[trigger] texts[i]).0 == name {
            let i = choose|i: int| 0 <= i < texts.len() && (#[trigger] texts[i]).0 == name;
            assert(fields[i].0 == name);
        }
        if exists|i: int| 0 <= i < fields.len() && (#[trigger] fields[i]).0 == name {
            let i = choose|i: int| 0 <= i < fields.len() && (#[trigger] fields[i]).0 == name;
            assert(texts[i].0 == name);
        }
    }
    assert forall|i: int|
        0 <= i < fields.len() && (forall|j: int|
            i < j < fields.len() ==> (#[trigger] fields[j]).0 != fields[i].0)
        implies headers.contains_key((#[trigger] fields[i]).0) && is_value(
        headers[fields[i].0],
        fields[i].1,
    ) by {
        assert(texts[i].0 == fields[i].0);
        assert forall|j: int| i < j < texts.len() implies (#[trigger] texts[j]).0
            != texts[i].0 by {
            assert(fields[j].0 != fields[i].0);
        }
        the_last_value_counts(texts, i);
        assert(is_value(text_or_empty(texts[i].1), fields[i].1));
        if texts[i].1 is None {
            assert(headers[fields[i].0] =~= text_or_empty(texts[i].1));
        }
    }
}

/// Whether `name` is that of the content coding, in upper or lower case.
pub open spec fn names_coding(name: Seq<char>) -> bool {
    lower_case(name) == "content-encoding"@
}

proof fn lemma_names_coding(name: Seq<char>)
    ensures
        names_coding(name) <==> lower_case(name) == lower_case("content-encoding"@),
{
    reveal_strlit("content-encoding");
    assert(lower_case("content-encoding"@) =~= "content-encoding"@);
}

/// The content coding of a response is the value of the first field that names one,
/// wherever it stands; a value that is no text counts as empty.
pub proof fn the_first_coding_counts(fields: Seq<(Seq<char>, Option<Seq<char>>)>, i: int)
    requires
        0 <= i < fields.len(),
        names_coding(fields[i].0),
        forall|j: int| 0 <= j < i ==> !names_coding((#[trigger] fields[j]).0),
    ensures
        match fields[i].1 {
            Some(text) => coding_field(fields) == Some(text),
            None => coding_field(fields) matches Some(text) && text.len() == 0,
        },
    decreases i,
{
    lemma_names_coding(fields[0].0);
    if i > 0 {
        let later = fields.skip(1);
        assert(!names_coding(fields[0].0));
        assert forall|j: int| 0 <= j < i - 1 implies !names_coding((#[trigger] later[j]).0) by {
            assert(later[j] == fields[j + 1]);
        }
        the_first_coding_counts(later, i - 1);
    }
}

/// A response without a field that names a content coding has none.
pub proof fn without_a_field_there_is_no_coding(fields: Seq<(Seq<char>, Option<Seq<char>>)>)
    requires
        forall|j: int| 0 <= j < fields.len() ==> !names_coding((#[trigger] fields[j]).0),
    ensures
        coding_field(fields) is None,
    decreases fields.len(),
{
    if fields.len() > 0 {
        let later = fields.skip(1);
        lemma_names_coding(fields[0].0);
        assert(!names_coding(fields[0].0));
        assert forall|j: int| 0 <= j < later.len() implies !names_coding(
            (#[trigger] later[j]).0,
        ) by {
            assert(later[j] == fields[j + 1]);
        }
        without_a_field_there_is_no_coding(later);
    }
}

/// The content coding that a caller of a stream sees, in terms of the fields that came:
/// with field `i` the first one that names a coding, it is the value of field `i`.
pub proof fn a_coding_is_found_wherever_it_stands(fields: Seq<(Seq<char>, Seq<u8>)>, i: int)
    requires
        0 <= i < fields.len(),
        names_coding(fields[i].0),
        forall|j: int| 0 <= j < i ==> !names_coding((#[trigger] fields[j]).0),
    ensures
        coding_field(as_text(fields)) matches Some(text) && is_value(text, fields[i].1),
{
    let texts = as_text(fields);
    fields_keep_their_places(fields);
    assert(texts[i].0 == fields[i].0);
    assert forall|j: int| 0 <= j < i implies !names_coding((#[trigger] texts[j]).0) by {
        assert(!names_coding(fields[j].0));
    }
    the_first_coding_counts(texts, i);
    assert(is_value(text_or_empty(texts[i].1), fields[i].1));
    if texts[i].1 is None {
        assert(coding_field(texts)->0 =~= text_or_empty(texts[i].1));
    }
}

/// A stream has a content coding only if one of the fields that came names one.
pub proof fn a_coding_comes_from_a_field(fields: Seq<(Seq<char>, Seq<u8>)>)
    requires
        forall|j: int| 0 <= j < fields.len() ==> !names_coding((#[trigger] fields[j]).0),
    ensures
        coding_field(as_text(fields)) is None,
{
    let texts = as_text(fields);
    fields_keep_their_places(fields);
    assert forall|j: int| 0 <= j < texts.len() implies !names_coding((#[trigger] texts[j]).0) by {
        assert(!names_coding(fields[j].0));
    }
    without_a_field_there_is_no_coding(texts);
}

/// The text of a status begins with its number and a space; its reason follows.
pub proof fn a_status_tells_its_number(code: u16)
    requires
        100 <= code <= 999,
    ensures
        ({
            let text = status_text(code);
            &&& text.len() >= 4
            &&& number(text.take(3)) == code
            &&& text[3] == ' '
            &&& text.skip(4) == match canonical_reason(code) {
                Some(reason) => reason,
                None => "<unknown status code>"@,
            }
        }),
{
    reveal_strlit(" ");
    reveal_strlit("<unknown status code>");
    let text = status_text(code);
    let digits = decimal(code as nat);
    decimal_reads_back(code as nat);
    assert(digits.len() == 3) by {
        reveal_with_fuel(decimal, 4);
    }
    assert(text.take(3) =~= digits);
    match canonical_reason(code) {
        Some(reason) => {
            assert(text.skip(4) =~= reason);
        },
        None => {
            assert(text.skip(4) =~= "<unknown status code>"@);
        },
    }
}

/// A text that may be missing keeps its characters.
pub proof fn texts_keep_their_characters(text: String)
    ensures
        optional_text(Some(text)) == Some(text@),
        optional_text(None) is None,
{
}

} // verus!
