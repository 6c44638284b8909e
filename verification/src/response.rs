//! Responses: status, header fields and body.
use vstd::prelude::*;

use crate::outside::{
    bytes_content, canonical_reason, fields_of, header_fields, status_line, value_bytes,
    value_to_str,
};
use crate::text::{ascii_text, decimal, lower_case, optional_text};

verus! {

/// A status code, from 100 to 999.
#[derive(Debug, Clone, Copy, PartialEq, Eq)]
pub struct Status {
    code: u16,
}

/// The text of a status: the number and its reason.
pub open spec fn status_text(code: u16) -> Seq<char> {
    decimal(code as nat) + " "@ + match canonical_reason(code) {
        Some(reason) => reason,
        None => "<unknown status code>"@,
    }
}

impl View for Status {
    type V = u16;

    closed spec fn view(&self) -> u16 {
        self.code
    }
}

impl Status {
    #[verifier::type_invariant]
    closed spec fn in_range(self) -> bool {
        100 <= self.code <= 999
    }

    /// The status with this number, if it is one of a status.
    pub fn new(code: u16) -> (status: Option<Status>)
        ensures
            match status {
                Some(s) => 100 <= code <= 999 && s@ == code,
                None => !(100 <= code <= 999),
            },
    {
        if code < 100 || code > 999 {
            None
        } else {
            Some(Status { code })
        }
    }

    /// The number of the status.
    pub fn as_u16(&self) -> (code: u16)
        ensures
            code == self@,
            100 <= code <= 999,
    {
        proof {
            use_type_invariant(self);
        }
        self.code
    }

    /// Whether the status reports success.
    pub fn is_success(&self) -> (success: bool)
        ensures
            success == (200 <= self@ < 300),
    {
        200 <= self.code && self.code < 300
    }

    /// The number and its reason.
    pub fn to_string(&self) -> (text: String)
        ensures
            text@ == status_text(self@),
    {
        proof {
            use_type_invariant(self);
        }
        status_line(self.code)
    }
}

/// Whether `bytes` are visible ASCII characters, spaces and tabs.
pub open spec fn is_visible(bytes: Seq<u8>) -> bool {
    forall|i: int|
        0 <= i < bytes.len() ==> {
            let b = #[trigger] bytes[i];
            32 <= b < 127 || b == 9
        }
}

/// A header value as text; `None` if it is not visible text.
pub open spec fn value_text(bytes: Seq<u8>) -> Option<Seq<char>> {
    if is_visible(bytes) {
        Some(ascii_text(bytes))
    } else {
        None
    }
}

/// Header fields with their values as text.
pub open spec fn as_text(fields: Seq<(Seq<char>, Seq<u8>)>) -> Seq<
    (Seq<char>, Option<Seq<char>>),
> {
    fields.map_values(|field: (Seq<char>, Seq<u8>)| (field.0, value_text(field.1)))
}

/// The header fields of a response, one value for each name.
#[derive(Debug)]
pub struct ResponseHeaders {
    fields: Vec<(String, String)>,
}

impl View for ResponseHeaders {
    type V = Map<Seq<char>, Seq<char>>;

    closed spec fn view(&self) -> Map<Seq<char>, Seq<char>> {
        Map::new(
            |name: Seq<char>| exists|i: int| self.holds(i, name),
            |name: Seq<char>| self.fields@[choose|i: int| self.holds(i, name)].1@,
        )
    }
}

impl ResponseHeaders {
    spec fn holds(self, i: int, name: Seq<char>) -> bool {
        0 <= i < self.fields@.len() && self.fields@[i].0@ == name
    }

    /// No name occurs twice.
    pub closed spec fn wf(self) -> bool {
        forall|i: int, j: int|
            0 <= i < j < self.fields@.len() ==> (#[trigger] self.fields@[i]).0@ != (
            #[trigger] self.fields@[j]).0@
    }

    /// No fields.
    pub fn new() -> (headers: ResponseHeaders)
        ensures
            headers.wf(),
            headers@ == Map::<Seq<char>, Seq<char>>::empty(),
    {
        let headers = ResponseHeaders { fields: Vec::new() };
        assert(headers@ =~= Map::<Seq<char>, Seq<char>>::empty());
        headers
    }

    fn position(&self, name: &str) -> (index: Option<usize>)
        ensures
            match index {
                Some(i) => self.holds(i as int, name@),
                None => forall|i: int| !self.holds(i, name@),
            },
    {
        let wanted = name.to_owned();
        let mut i: usize = 0;
        while i < self.fields.len()
            invariant
                wanted@ == name@,
                i <= self.fields@.len(),
                forall|j: int| 0 <= j < i ==> !self.holds(j, name@),
            decreases self.fields@.len() - i,
        {
            if self.fields[i].0 == wanted {
                return Some(i);
            }
            i = i + 1;
        }
        None
    }

    /// Sets the value of `name`, in place of one that it had.
    pub fn insert(&mut self, name: String, value: String)
        requires
            old(self).wf(),
        ensures
            final(self).wf(),
            final(self)@ == old(self)@.insert(name@, value@),
    {
        match self.position(name.as_str()) {
            Some(i) => {
                self.fields.set(i, (name, value));
                proof {
                    Self::lemma_set(*old(self), *self, i as int, name, value);
                }
            },
            None => {
                self.fields.push((name, value));
                proof {
                    let last = self.fields@.len() - 1;
                    Self::lemma_set(*old(self), *self, last, name, value);
                }
            },
        }
    }

    /// With distinct names, `current` maps `name` to the value at `at` and is
    /// otherwise as `before`.
    proof fn lemma_set(before: Self, current: Self, at: int, name: String, value: String)
        requires
            before.wf(),
            0 <= at < current.fields@.len(),
            current.fields@[at] == (name, value),
            before.holds(at, name@) || at == before.fields@.len(),
            before.holds(at, name@) || forall|i: int| !before.holds(i, name@),
            current.fields@.len() == if at == before.fields@.len() {
                at + 1
            } else {
                before.fields@.len() as int
            },
            forall|i: int|
                0 <= i < before.fields@.len() && i != at ==> #[trigger] current.fields@[i]
                    == before.fields@[i],
        ensures
            current.wf(),
            current@ == before@.insert(name@, value@),
    {
        assert forall|i: int, j: int| 0 <= i < j < current.fields@.len() implies (
        #[trigger] current.fields@[i]).0@ != (#[trigger] current.fields@[j]).0@ by {
            if before.holds(at, name@) {
                assert(before.fields@[i].0@ != before.fields@[j].0@);
            } else if j == at {
                assert(!before.holds(i, name@));
            }
        }
        assert forall|key: Seq<char>| #[trigger]
            current@.contains_key(key) == before@.insert(name@, value@).contains_key(key) by {
            if key == name@ {
                assert(current.holds(at, key));
            } else {
                if exists|i: int| current.holds(i, key) {
                    let i = choose|i: int| current.holds(i, key);
                    assert(before.holds(i, key));
                }
                if exists|i: int| before.holds(i, key) {
                    let i = choose|i: int| before.holds(i, key);
                    assert(current.holds(i, key));
                }
            }
        }
        assert forall|key: Seq<char>| #[trigger] current@.contains_key(key) implies current@[key]
            == before@.insert(name@, value@)[key] by {
            let i = choose|i: int| current.holds(i, key);
            if key == name@ {
                assert(current.holds(at, key));
                assert(i == at);
            } else {
                assert(before.holds(i, key));
                let k = choose|k: int| before.holds(k, key);
                assert(i == k);
            }
        }
        assert(current@ =~= before@.insert(name@, value@));
    }

    /// The value of `name`.
    pub fn get(&self, name: &str) -> (value: Option<&str>)
        requires
            self.wf(),
        ensures
            match value {
                Some(text) => self@.contains_key(name@) && self@[name@] == text@,
                None => !self@.contains_key(name@),
            },
    {
        match self.position(name) {
            Some(i) => Some(self.fields[i].1.as_str()),
            None => None,
        }
    }

    /// All fields, name and value.
    pub fn fields(&self) -> (fields: &Vec<(String, String)>)
        requires
            self.wf(),
        ensures
            forall|i: int, j: int|
                0 <= i < j < fields@.len() ==> (#[trigger] fields@[i]).0@ != (
                #[trigger] fields@[j]).0@,
            forall|i: int|
                0 <= i < fields@.len() ==> self@.contains_pair(
                    (#[trigger] fields@[i]).0@,
                    fields@[i].1@,
                ),
            forall|name: Seq<char>| #[trigger]
                self@.contains_key(name) ==> exists|i: int|
                    0 <= i < fields@.len() && (#[trigger] fields@[i]).0@ == name,
    {
        proof {
            assert forall|i: int| 0 <= i < self.fields@.len() implies self@.contains_pair(
                (#[trigger] self.fields@[i]).0@,
                self.fields@[i].1@,
            ) by {
                let name = self.fields@[i].0@;
                assert(self.holds(i, name));
                let k = choose|k: int| self.holds(k, name);
                assert(i == k);
            }
            assert forall|name: Seq<char>| #[trigger] self@.contains_key(name) implies exists|
                i: int,
            |
                0 <= i < self.fields@.len() && (#[trigger] self.fields@[i]).0@ == name by {
                let k = choose|k: int| self.holds(k, name);
                assert(self.fields@[k].0@ == name);
            }
        }
        &self.fields
    }
}

/// `text`, or an empty text in its place.
pub open spec fn text_or_empty(text: Option<Seq<char>>) -> Seq<char> {
    match text {
        Some(t) => t,
        None => Seq::empty(),
    }
}

/// One value for each name. Where a name occurs more than once, its last value
/// counts; a value that is not text counts as empty.
pub open spec fn field_map(fields: Seq<(Seq<char>, Option<Seq<char>>)>) -> Map<
    Seq<char>,
    Seq<char>,
>
    decreases fields.len(),
{
    if fields.len() == 0 {
        Map::empty()
    } else {
        field_map(fields.drop_last()).insert(fields.last().0, text_or_empty(fields.last().1))
    }
}

/// The value of the first field with the name `content-encoding`; empty if it is not
/// text.
pub open spec fn coding_field(fields: Seq<(Seq<char>, Option<Seq<char>>)>) -> Option<Seq<char>>
    decreases fields.len(),
{
    if fields.len() == 0 {
        None
    } else if lower_case(fields[0].0) == lower_case("content-encoding"@) {
        Some(text_or_empty(fields[0].1))
    } else {
        coding_field(fields.skip(1))
    }
}

/// The characters of `fields`.
pub open spec fn field_texts(fields: Seq<(String, Option<String>)>) -> Seq<
    (Seq<char>, Option<Seq<char>>),
> {
    Seq::new(fields.len(), |i: int| (fields[i].0@, optional_text(fields[i].1)))
}

fn or_empty(text: &Option<String>) -> (t: String)
    ensures
        t@ == text_or_empty(optional_text(*text)),
{
    match text {
        Some(t) => t.clone(),
        None => String::new(),
    }
}

/// Collects header fields, one value for each name.
pub fn collect_fields(fields: &Vec<(String, Option<String>)>) -> (collected: ResponseHeaders)
    ensures
        collected.wf(),
        collected@ == field_map(field_texts(fields@)),
{
    let ghost all = field_texts(fields@);
    let mut collected = ResponseHeaders::new();
    let mut i: usize = 0;
    assert(all.take(0) =~= Seq::empty());
    while i < fields.len()
        invariant
            i <= fields@.len(),
            all == field_texts(fields@),
            collected.wf(),
            collected@ == field_map(all.take(i as int)),
        decreases fields@.len() - i,
    {
        collected.insert(fields[i].0.clone(), or_empty(&fields[i].1));
        assert(all.take(i + 1).drop_last() =~= all.take(i as int));
        assert(all.take(i + 1).last() == all[i as int]);
        i = i + 1;
    }
    assert(all.take(all.len() as int) =~= all);
    collected
}

/// Looks for the content coding among header fields.
pub fn find_coding(fields: &Vec<(String, Option<String>)>) -> (coding: Option<String>)
    ensures
        optional_text(coding) == coding_field(field_texts(fields@)),
{
    let ghost all = field_texts(fields@);
    let mut i: usize = 0;
    assert(all.skip(0) =~= all);
    while i < fields.len()
        invariant
            i <= fields@.len(),
            all == field_texts(fields@),
            coding_field(all) == coding_field(all.skip(i as int)),
        decreases fields@.len() - i,
    {
        if fields[i].0.as_str().eq_ignore_ascii_case("content-encoding") {
            return Some(or_empty(&fields[i].1));
        }
        assert(all.skip(i as int).skip(1) =~= all.skip(i + 1));
        i = i + 1;
    }
    None
}

/// The header fields of a response with their values as text.
pub fn text_fields(headers: &http::HeaderMap<http::HeaderValue>) -> (texts: Vec<
    (String, Option<String>),
>)
    ensures
        field_texts(texts@) == as_text(header_fields(*headers)),
{
    let fields = fields_of(headers);
    let ghost all = header_fields(*headers);
    let mut texts: Vec<(String, Option<String>)> = Vec::new();
    let mut i: usize = 0;
    while i < fields.len()
        invariant
            i <= fields@.len(),
            all == header_fields(*headers),
            fields@.len() == all.len(),
            forall|j: int|
                0 <= j < fields@.len() ==> (#[trigger] fields@[j]).0@ == all[j].0 && value_bytes(
                    fields@[j].1,
                ) == all[j].1,
            texts@.len() == i,
            forall|j: int|
                0 <= j < i ==> (#[trigger] texts@[j]).0@ == all[j].0 && optional_text(texts@[j].1)
                    == value_text(all[j].1),
        decreases fields@.len() - i,
    {
        texts.push((fields[i].0.clone(), value_to_str(&fields[i].1)));
        i = i + 1;
    }
    assert(field_texts(texts@) =~= as_text(all));
    texts
}

/// Collects the header fields of a response as text.
pub fn collect_headers(headers: &http::HeaderMap<http::HeaderValue>) -> (collected:
    ResponseHeaders)
    ensures
        collected.wf(),
        collected@ == field_map(as_text(header_fields(*headers))),
{
    collect_fields(&text_fields(headers))
}

/// The content coding of a response.
pub fn content_encoding(headers: &http::HeaderMap<http::HeaderValue>) -> (coding: Option<String>)
    ensures
        optional_text(coding) == coding_field(as_text(header_fields(*headers))),
{
    find_coding(&text_fields(headers))
}

/// A whole response.
#[derive(Debug)]
pub struct H3Response {
    pub status: Status,
    pub headers: ResponseHeaders,
    pub body: bytes::Bytes,
}

/// What a response holds.
#[verifier::ext_equal]
pub struct ResponseContent {
    pub status: u16,
    pub headers: Map<Seq<char>, Seq<char>>,
    pub body: Seq<u8>,
}

impl View for H3Response {
    type V = ResponseContent;

    open spec fn view(&self) -> ResponseContent {
        ResponseContent {
            status: self.status@,
            headers: self.headers@,
            body: bytes_content(self.body),
        }
    }
}

} // verus!
