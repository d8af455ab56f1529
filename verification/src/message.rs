//! Requests and responses as the proxy sees them: header fields, replies, and
//! what of a response may be kept or passed on.
use crate::headers::{copy_pair, pairs, HeaderText};
use crate::numeral::{decimal, decimal_text, numeral, parse_u64};
use crate::text::{
    chars_of, lowered, maybe, maybe_string, same, same_ignore_case, same_ignoring_case,
};
use vstd::prelude::*;

verus! {

/// A header field. The value is absent where it is not visible ASCII text.
#[derive(Debug)]
pub struct HeaderField {
    pub name: String,
    pub value: Option<String>,
}

/// A header field as text.
pub type FieldText = (Seq<char>, Option<Seq<char>>);

/// The texts of a list of header fields.
pub open spec fn fields(h: Seq<HeaderField>) -> Seq<FieldText> {
    h.map_values(|f: HeaderField| (f.name@, maybe_string(f.value)))
}

/// The value of the first field called `name`; none where there is no such
/// field or its value is no text. Names are in lower case.
pub open spec fn field_text(h: Seq<FieldText>, name: Seq<char>) -> Option<Seq<char>>
    decreases h.len(),
{
    if h.len() == 0 {
        None
    } else if h[0].0 == name {
        h[0].1
    } else {
        field_text(h.skip(1), name)
    }
}

/// Whether there is a field called `name`.
pub open spec fn has_field(h: Seq<FieldText>, name: Seq<char>) -> bool {
    exists|i: int| 0 <= i < h.len() && (#[trigger] h[i]).0 == name
}

/// The body length that a request declares.
pub open spec fn declared_length(h: Seq<FieldText>) -> Option<nat> {
    match field_text(h, "content-length"@) {
        Some(text) => numeral(text, u64::MAX as nat),
        None => None,
    }
}

/// The fields that have text, as pairs.
pub open spec fn text_pairs(h: Seq<FieldText>) -> Seq<HeaderText>
    decreases h.len(),
{
    if h.len() == 0 {
        Seq::empty()
    } else {
        let front = text_pairs(h.drop_last());
        match h.last().1 {
            Some(value) => front.push((h.last().0, value)),
            None => front,
        }
    }
}

/// The value of the first field called `name`.
pub fn find_field<'a>(h: &'a Vec<HeaderField>, name: &str) -> (r: Option<&'a str>)
    ensures
        maybe(r) == field_text(fields(h@), name@),
{
    let ghost all = fields(h@);
    let mut i: usize = 0;
    assert(all.skip(0) =~= all);
    while i < h.len()
        invariant
            i <= h.len(),
            all == fields(h@),
            field_text(all, name@) == field_text(all.skip(i as int), name@),
        decreases h.len() - i,
    {
        assert(all.skip(i as int)[0] == (h@[i as int].name@, maybe_string(h@[i as int].value)));
        assert(all.skip(i as int).skip(1) =~= all.skip(i + 1));
        if same(h[i].name.as_str(), name) {
            return match &h[i].value {
                Some(text) => Some(text.as_str()),
                None => None,
            };
        }
        i = i + 1;
    }
    None
}

/// Whether there is a field called `name`.
pub fn contains_field(h: &Vec<HeaderField>, name: &str) -> (r: bool)
    ensures
        r == has_field(fields(h@), name@),
{
    let ghost all = fields(h@);
    let mut i: usize = 0;
    while i < h.len()
        invariant
            i <= h.len(),
            all == fields(h@),
            forall|j: int| 0 <= j < i ==> (#[trigger] all[j]).0 != name@,
        decreases h.len() - i,
    {
        assert(all[i as int].0 == h@[i as int].name@);
        if same(h[i].name.as_str(), name) {
            return true;
        }
        i = i + 1;
    }
    false
}

/// The body length that a request declares.
pub fn content_length(h: &Vec<HeaderField>) -> (r: Option<u64>)
    ensures
        match r {
            Some(n) => declared_length(fields(h@)) == Some(n as nat),
            None => declared_length(fields(h@)) is None,
        },
{
    match find_field(h, "content-length") {
        Some(text) => {
            let chars = chars_of(text);
            parse_u64(chars.as_slice())
        },
        None => None,
    }
}

/// The fields that have text, as pairs.
pub fn keep_text(h: &Vec<HeaderField>) -> (r: Vec<(String, String)>)
    ensures
        pairs(r@) == text_pairs(fields(h@)),
{
    let ghost all = fields(h@);
    let mut out: Vec<(String, String)> = Vec::new();
    let mut i: usize = 0;
    assert(pairs(out@) =~= Seq::<HeaderText>::empty());
    while i < h.len()
        invariant
            i <= h.len(),
            all == fields(h@),
            pairs(out@) == text_pairs(all.take(i as int)),
        decreases h.len() - i,
    {
        let ghost o = out@;
        assert(all[i as int] == (h@[i as int].name@, maybe_string(h@[i as int].value)));
        assert(all.take(i + 1).drop_last() =~= all.take(i as int));
        match &h[i].value {
            Some(text) => {
                out.push((h[i].name.clone(), text.clone()));
                assert(pairs(out@) =~= pairs(o).push((h@[i as int].name@, text@)));
            },
            None => {},
        }
        i = i + 1;
    }
    assert(all.take(i as int) =~= all);
    out
}

/// The characters of a header name.
pub open spec fn is_name_char(c: char) -> bool {
    ||| '0' <= c <= '9'
    ||| 'A' <= c <= 'Z'
    ||| 'a' <= c <= 'z'
    ||| c == '!' || c == '#' || c == '$' || c == '%' || c == '&' || c == '\'' || c == '*'
    ||| c == '+' || c == '-' || c == '.' || c == '^' || c == '_' || c == '`' || c == '|' || c == '~'
}

/// Whether text is a header name: not empty, not too long, and of name
/// characters only.
pub open spec fn is_header_name(s: Seq<char>) -> bool {
    &&& 0 < s.len() <= 65535
    &&& forall|i: int| 0 <= i < s.len() ==> is_name_char(#[trigger] s[i])
}

/// Whether text is a header value: no control character but the tab.
pub open spec fn is_header_value(s: Seq<char>) -> bool {
    forall|i: int|
        0 <= i < s.len() ==> (#[trigger] s[i] == '\t' || (s[i] as u32 >= 32 && s[i] as u32 != 127))
}

/// `http::HeaderName::from_bytes` accepts what [`is_header_name`] says, and
/// normalizes it to lower case.
#[verifier::external_body]
pub(crate) fn header_name(name: &str) -> (r: Option<String>)
    ensures
        match r {
            Some(t) => is_header_name(name@) && t@ == lowered(name@),
            None => !is_header_name(name@),
        },
{
    http::HeaderName::from_bytes(name.as_bytes()).ok().map(|n| n.as_str().to_owned())
}

/// `http::HeaderValue::from_str` accepts text without control characters, but
/// for the tab.
#[verifier::external_body]
pub(crate) fn valid_value(value: &str) -> (r: bool)
    ensures
        r == is_header_value(value@),
{
    http::HeaderValue::from_str(value).is_ok()
}

/// `http::StatusCode::from_u16` accepts the codes of three digits.
#[verifier::external_body]
pub(crate) fn valid_status(status: u16) -> (r: bool)
    ensures
        r == (100 <= status <= 999),
{
    http::StatusCode::from_u16(status).is_ok()
}

/// The header list with one more header; unchanged where it is not well
/// formed.
pub open spec fn appended(list: Seq<HeaderText>, h: HeaderText) -> Seq<HeaderText> {
    if is_header_name(h.0) && is_header_value(h.1) {
        list.push(h)
    } else {
        list
    }
}

/// The header list with more headers.
pub open spec fn all_appended(list: Seq<HeaderText>, more: Seq<HeaderText>) -> Seq<HeaderText>
    decreases more.len(),
{
    if more.len() == 0 {
        list
    } else {
        appended(all_appended(list, more.drop_last()), more.last())
    }
}

/// The headers that are not called `name`, up to letter case.
pub open spec fn without(list: Seq<HeaderText>, name: Seq<char>) -> Seq<HeaderText>
    decreases list.len(),
{
    if list.len() == 0 {
        Seq::empty()
    } else {
        let front = without(list.drop_last(), name);
        if same_ignoring_case(list.last().0, name) {
            front
        } else {
            front.push(list.last())
        }
    }
}

/// The header list with a header in place of all of its name; unchanged where
/// it is not well formed.
pub open spec fn inserted(list: Seq<HeaderText>, h: HeaderText) -> Seq<HeaderText> {
    if is_header_name(h.0) && is_header_value(h.1) {
        without(list, h.0).push(h)
    } else {
        list
    }
}

/// The header list with several headers in place of all of their names.
pub open spec fn all_inserted(list: Seq<HeaderText>, more: Seq<HeaderText>) -> Seq<HeaderText>
    decreases more.len(),
{
    if more.len() == 0 {
        list
    } else {
        inserted(all_inserted(list, more.drop_last()), more.last())
    }
}

/// Appends a header, if it is well formed.
pub fn append_header(list: &mut Vec<(String, String)>, name: &str, value: &str)
    ensures
        pairs(final(list)@) == appended(pairs(old(list)@), (name@, value@)),
{
    if header_name(name).is_some() && valid_value(value) {
        let ghost o = list@;
        let p = (name.to_owned(), value.to_owned());
        list.push(p);
        assert(pairs(list@) =~= pairs(o).push((p.0@, p.1@)));
    }
}

/// Appends headers, each if it is well formed.
pub fn append_headers(list: &mut Vec<(String, String)>, more: &Vec<(String, String)>)
    ensures
        pairs(final(list)@) == all_appended(pairs(old(list)@), pairs(more@)),
{
    let ghost start = pairs(list@);
    let ghost all = pairs(more@);
    let mut i: usize = 0;
    while i < more.len()
        invariant
            i <= more.len(),
            all == pairs(more@),
            pairs(list@) == all_appended(start, all.take(i as int)),
        decreases more.len() - i,
    {
        assert(all[i as int] == (more@[i as int].0@, more@[i as int].1@));
        assert(all.take(i + 1).drop_last() =~= all.take(i as int));
        append_header(list, more[i].0.as_str(), more[i].1.as_str());
        i = i + 1;
    }
    assert(all.take(i as int) =~= all);
}

/// Removes every header called `name`.
pub fn remove_header(list: &mut Vec<(String, String)>, name: &str)
    ensures
        pairs(final(list)@) == without(pairs(old(list)@), name@),
{
    let ghost all = pairs(list@);
    let mut out: Vec<(String, String)> = Vec::new();
    let mut i: usize = 0;
    assert(pairs(out@) =~= Seq::<HeaderText>::empty());
    while i < list.len()
        invariant
            i <= list.len(),
            all == pairs(list@),
            pairs(out@) == without(all.take(i as int), name@),
        decreases list.len() - i,
    {
        let ghost o = out@;
        assert(all[i as int] == (list@[i as int].0@, list@[i as int].1@));
        assert(all.take(i + 1).drop_last() =~= all.take(i as int));
        if !same_ignore_case(list[i].0.as_str(), name) {
            let p = copy_pair(&list[i]);
            out.push(p);
            assert(pairs(out@) =~= pairs(o).push((p.0@, p.1@)));
        }
        i = i + 1;
    }
    assert(all.take(i as int) =~= all);
    *list = out;
}

/// Puts a header in place of all of its name, if it is well formed.
pub fn insert_header(list: &mut Vec<(String, String)>, name: &str, value: &str)
    ensures
        pairs(final(list)@) == inserted(pairs(old(list)@), (name@, value@)),
{
    if header_name(name).is_some() && valid_value(value) {
        remove_header(list, name);
        let ghost o = list@;
        let p = (name.to_owned(), value.to_owned());
        list.push(p);
        assert(pairs(list@) =~= pairs(o).push((p.0@, p.1@)));
    }
}

/// Puts headers in place of all of their names, each if it is well formed.
pub fn insert_headers(list: &mut Vec<(String, String)>, more: &Vec<(String, String)>)
    ensures
        pairs(final(list)@) == all_inserted(pairs(old(list)@), pairs(more@)),
{
    let ghost start = pairs(list@);
    let ghost all = pairs(more@);
    let mut i: usize = 0;
    while i < more.len()
        invariant
            i <= more.len(),
            all == pairs(more@),
            pairs(list@) == all_inserted(start, all.take(i as int)),
        decreases more.len() - i,
    {
        assert(all[i as int] == (more@[i as int].0@, more@[i as int].1@));
        assert(all.take(i + 1).drop_last() =~= all.take(i as int));
        insert_header(list, more[i].0.as_str(), more[i].1.as_str());
        i = i + 1;
    }
    assert(all.take(i as int) =~= all);
}

/// A status and headers.
#[derive(Debug)]
pub struct ResponseHead {
    pub status: u16,
    pub headers: Vec<(String, String)>,
}

/// A response head as text.
#[verifier::ext_equal]
pub struct HeadText {
    pub status: u16,
    pub headers: Seq<HeaderText>,
}

impl View for ResponseHead {
    type V = HeadText;

    open spec fn view(&self) -> HeadText {
        HeadText { status: self.status, headers: pairs(self.headers@) }
    }
}

/// The headers with their names in lower case.
pub open spec fn lower_names(list: Seq<HeaderText>) -> Seq<HeaderText> {
    list.map_values(|h: HeaderText| (lowered(h.0), h.1))
}

/// Puts the names into the lower case that `http::HeaderName` keeps them in.
fn normalize_names(list: &Vec<(String, String)>) -> (r: Vec<(String, String)>)
    requires
        all_well_formed(pairs(list@)),
    ensures
        pairs(r@) == lower_names(pairs(list@)),
{
    let ghost all = pairs(list@);
    let mut out: Vec<(String, String)> = Vec::new();
    let mut i: usize = 0;
    while i < list.len()
        invariant
            i <= list.len(),
            all == pairs(list@),
            all_well_formed(all),
            pairs(out@) == lower_names(all).take(i as int),
        decreases list.len() - i,
    {
        let ghost o = out@;
        assert(all[i as int] == (list@[i as int].0@, list@[i as int].1@));
        assert(well_formed(all[i as int]));
        match header_name(list[i].0.as_str()) {
            Some(n) => {
                let p = (n, list[i].1.clone());
                out.push(p);
                assert(pairs(out@) =~= pairs(o).push((p.0@, p.1@)));
                assert(lower_names(all).take(i + 1) =~= lower_names(all).take(i as int).push(
                    lower_names(all)[i as int],
                ));
            },
            None => {},
        }
        i = i + 1;
    }
    assert(lower_names(all).take(i as int) =~= lower_names(all));
    out
}

/// A response head made of values that may be of any kind: a status out of
/// range becomes 502, and headers that are not well formed are dropped. Names
/// are in lower case.
pub open spec fn safe_head(
    status: u16,
    headers: Seq<HeaderText>,
    content_length: Option<nat>,
) -> HeadText {
    let kept = all_appended(Seq::empty(), headers);
    HeadText {
        status: if 100 <= status <= 999 {
            status
        } else {
            502
        },
        headers: lower_names(
            match content_length {
                Some(n) => inserted(kept, ("content-length"@, decimal_text(n))),
                None => kept,
            },
        ),
    }
}

/// A response head made of a status and headers that may have come from a
/// plugin or a cache file. Untrusted values never make it fail.
pub fn response_head(
    status: u16,
    headers: &Vec<(String, String)>,
    content_length: Option<usize>,
) -> (r: ResponseHead)
    ensures
        r@ == safe_head(
            status,
            pairs(headers@),
            match content_length {
                Some(n) => Some(n as nat),
                None => None,
            },
        ),
{
    let mut list: Vec<(String, String)> = Vec::new();
    assert(pairs(list@) =~= Seq::<HeaderText>::empty());
    append_headers(&mut list, headers);
    if let Some(n) = content_length {
        let text = decimal(n as u64);
        insert_header(&mut list, "content-length", text.as_str());
    }
    proof {
        let kept = all_appended(Seq::empty(), pairs(headers@));
        lemma_appended_well_formed(pairs(headers@));
        lemma_without_well_formed(kept, "content-length"@);
    }
    ResponseHead {
        status: if valid_status(status) {
            status
        } else {
            502
        },
        headers: normalize_names(&list),
    }
}

/// Whatever goes in, the head that comes out can be sent: its status has three
/// digits, and every header is well formed, its name in lower case.
pub proof fn law_safe_head_is_well_formed(
    status: u16,
    headers: Seq<HeaderText>,
    content_length: Option<nat>,
    i: int,
)
    requires
        0 <= i < safe_head(status, headers, content_length).headers.len(),
    ensures
        100 <= safe_head(status, headers, content_length).status <= 999,
        well_formed(safe_head(status, headers, content_length).headers[i]),
        lowered(safe_head(status, headers, content_length).headers[i].0) == safe_head(
            status,
            headers,
            content_length,
        ).headers[i].0,
{
    lemma_appended_well_formed(headers);
    let kept = all_appended(Seq::empty(), headers);
    lemma_without_well_formed(kept, "content-length"@);
    let list = match content_length {
        Some(n) => inserted(kept, ("content-length"@, decimal_text(n))),
        None => kept,
    };
    assert(well_formed(list[i]));
    lemma_lowered_name(list[i].0);
}

/// Whether a header can be sent.
pub open spec fn well_formed(h: HeaderText) -> bool {
    is_header_name(h.0) && is_header_value(h.1)
}

/// Whether every header can be sent.
pub open spec fn all_well_formed(list: Seq<HeaderText>) -> bool {
    forall|i: int| 0 <= i < list.len() ==> well_formed(#[trigger] list[i])
}

proof fn lemma_lowered_name(s: Seq<char>)
    requires
        is_header_name(s),
    ensures
        is_header_name(lowered(s)),
        lowered(lowered(s)) == lowered(s),
{
    let t = lowered(s);
    assert forall|i: int| 0 <= i < t.len() implies is_name_char(#[trigger] t[i]) by {
        assert(is_name_char(s[i]));
    }
    assert(lowered(t) =~= t);
}

proof fn lemma_appended_well_formed(more: Seq<HeaderText>)
    ensures
        all_well_formed(all_appended(Seq::empty(), more)),
    decreases more.len(),
{
    if more.len() > 0 {
        lemma_appended_well_formed(more.drop_last());
    }
}

proof fn lemma_without_well_formed(list: Seq<HeaderText>, name: Seq<char>)
    requires
        all_well_formed(list),
    ensures
        all_well_formed(without(list, name)),
    decreases list.len(),
{
    if list.len() > 0 {
        let front = list.drop_last();
        assert forall|i: int| 0 <= i < front.len() implies well_formed(#[trigger] front[i]) by {
            assert(front[i] == list[i]);
        }
        lemma_without_well_formed(front, name);
        assert(well_formed(list[list.len() - 1]));
    }
}

/// A request from a client, but for its body.
#[derive(Debug)]
pub struct Inbound {
    /// Request method.
    pub method: String,
    /// The path of the request target.
    pub path: String,
    /// The query of the request target.
    pub query: Option<String>,
    /// The path and query as they were sent.
    pub target: Option<String>,
    /// Header fields; their names are in lower case.
    pub headers: Vec<HeaderField>,
}

/// A request from a client as text.
#[verifier::ext_equal]
pub struct InboundText {
    pub method: Seq<char>,
    pub path: Seq<char>,
    pub query: Option<Seq<char>>,
    pub target: Option<Seq<char>>,
    pub headers: Seq<FieldText>,
}

impl View for Inbound {
    type V = InboundText;

    open spec fn view(&self) -> InboundText {
        InboundText {
            method: self.method@,
            path: self.path@,
            query: maybe_string(self.query),
            target: maybe_string(self.target),
            headers: fields(self.headers@),
        }
    }
}

/// The path and query of a request; `/` where it gives none.
pub open spec fn full_target(request: InboundText) -> Seq<char> {
    match request.target {
        Some(t) => t,
        None => "/"@,
    }
}

impl Inbound {
    /// The path and query of the request; `/` where it gives none.
    pub fn full_target(&self) -> (r: &str)
        ensures
            r@ == full_target(self@),
    {
        match &self.target {
            Some(t) => t.as_str(),
            None => "/",
        }
    }
}

} // verus!
