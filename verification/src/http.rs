//! URLs, headers and status codes.
use vstd::prelude::*;
use crate::text;

verus! {

/// Whether `c` may stand in a header's name.
pub open spec fn is_token_char(c: char) -> bool {
    ||| 'a' <= c <= 'z'
    ||| 'A' <= c <= 'Z'
    ||| '0' <= c <= '9'
    ||| c == '!' || c == '#' || c == '$' || c == '%' || c == '&' || c == '\'' || c == '*'
    ||| c == '+' || c == '-' || c == '.' || c == '^' || c == '_' || c == '`' || c == '|' || c == '~'
}

/// `c` in lower case, where it is an ASCII letter.
pub open spec fn ascii_lower(c: char) -> char {
    if 'A' <= c <= 'Z' {
        (c as u32 + 32) as char
    } else {
        c
    }
}

/// Whether `name` can be a header's name.
pub open spec fn is_header_name(name: Seq<char>) -> bool {
    &&& 0 < name.len() <= 65535
    &&& forall|i: int| 0 <= i < name.len() ==> is_token_char(#[trigger] name[i])
}

/// The name as it is sent and compared.
pub open spec fn canonical_name(name: Seq<char>) -> Seq<char> {
    name.map_values(|c: char| ascii_lower(c))
}

/// Whether `value` can be a header's value: no control characters but the tab.
pub open spec fn is_header_text(value: Seq<char>) -> bool {
    forall|i: int|
        0 <= i < value.len() ==> (#[trigger] value[i] == '\t' || (value[i] as u32 >= 32
            && value[i] as u32 != 127))
}

/// Calls `http::HeaderName::from_bytes`, by its path in `reqwest`. It accepts the names
/// that [`is_header_name`] describes, turned to lower case, and reports every other one
/// with one message.
#[verifier::external_body]
pub(crate) fn header_name(name: &str) -> (read: Result<String, String>)
    ensures
        match read {
            Ok(canonical) => is_header_name(name@) && canonical@ == canonical_name(name@),
            Err(message) => !is_header_name(name@) && message@ == "invalid HTTP header name"@,
        },
{
    match reqwest::header::HeaderName::from_bytes(name.as_bytes()) {
        Ok(name) => Ok(name.as_str().to_owned()),
        Err(error) => Err(error.to_string()),
    }
}

/// Calls `http::HeaderValue::from_str`, by its path in `reqwest`. It accepts the values
/// that [`is_header_text`] describes.
#[verifier::external_body]
pub(crate) fn is_header_value(value: &str) -> (valid: bool)
    ensures
        valid == is_header_text(value@),
{
    reqwest::header::HeaderValue::from_str(value).is_ok()
}

/// A status code and its reason, as `http::StatusCode`'s `Display` writes it.
pub uninterp spec fn status_text(status: u16) -> Seq<char>;

/// Calls `http::StatusCode::from_u16`, by its path in `reqwest`, and `Display`.
/// [`status_text`] names the text. A code of three digits is always accepted.
#[verifier::external_body]
pub(crate) fn status_line(status: u16) -> (text: String)
    requires
        100 <= status <= 999,
    ensures
        text@ == status_text(status),
{
    reqwest::StatusCode::from_u16(status).unwrap().to_string()
}

/// Whether `status` reports success.
pub open spec fn is_success(status: u16) -> bool {
    200 <= status < 300
}

/// The URL that `base` becomes when `segments` are appended to its path, a trailing
/// slash of which is dropped first; `None` where `base` is no URL that has a path.
pub uninterp spec fn appended_path(base: Seq<char>, segments: Seq<Seq<char>>) -> Option<Seq<char>>;

/// Calls `url::Url::parse`, `path_segments_mut`, `pop_if_empty` and `extend`.
/// [`appended_path`] names the URL that results, or that there is none.
#[verifier::external_body]
pub(crate) fn append_path(base: &str, segments: &Vec<String>) -> (url: Option<String>)
    ensures
        appended_path(base@, text::texts(segments@)) == (match url {
            Some(url) => Some(url@),
            None => None,
        }),
{
    let mut url = url::Url::parse(base).ok()?;
    url.path_segments_mut().ok()?.pop_if_empty().extend(segments);
    Some(url.as_str().to_owned())
}

/// The URL that `url` becomes when `key` and `value` are appended to its query;
/// `None` where `url` is no URL.
pub uninterp spec fn appended_query(url: Seq<char>, key: Seq<char>, value: Seq<char>) -> Option<
    Seq<char>,
>;

/// Calls `url::Url::parse`, `query_pairs_mut` and `append_pair`. [`appended_query`]
/// names the URL that results, or that there is none.
#[verifier::external_body]
pub(crate) fn append_query(url: &str, key: &str, value: &str) -> (appended: Option<String>)
    ensures
        appended_query(url@, key@, value@) == (match appended {
            Some(url) => Some(url@),
            None => None,
        }),
{
    let mut url = url::Url::parse(url).ok()?;
    url.query_pairs_mut().append_pair(key, value);
    Some(url.as_str().to_owned())
}

/// How many bytes of an error's body a message keeps.
pub const BODY_EXCERPT_LIMIT: usize = 200;

/// A response body as a message quotes it: trimmed, and cut with an ellipsis where it
/// is long.
pub open spec fn body_excerpt(body: Seq<char>) -> Seq<char> {
    text::excerpted(body, BODY_EXCERPT_LIMIT as nat)
}

/// Cuts a response body for a message.
pub fn excerpt(body: &str) -> (out: String)
    ensures
        out@ == body_excerpt(body@),
{
    text::excerpt(body, BODY_EXCERPT_LIMIT)
}

/// One header of a request.
#[derive(Debug)]
pub struct Header {
    /// The name, in lower case.
    pub name: String,
    pub value: String,
    /// Whether the value stays out of logs.
    pub sensitive: bool,
}

/// What a header holds besides its name.
pub struct HeaderModel {
    pub value: Seq<char>,
    pub sensitive: bool,
}

/// The headers of a request by their names; a later one replaces an earlier one.
pub open spec fn headers_model(headers: Seq<Header>) -> Map<Seq<char>, HeaderModel>
    decreases headers.len(),
{
    if headers.len() == 0 {
        Map::empty()
    } else {
        let last = headers.last();
        headers_model(headers.drop_last()).insert(
            last.name@,
            HeaderModel { value: last.value@, sensitive: last.sensitive },
        )
    }
}

/// Whether no name stands twice in a list.
pub open spec fn names_differ(headers: Seq<Header>) -> bool {
    forall|i: int, j: int| 0 <= i < j < headers.len() ==> headers[i].name@ != headers[j].name@
}

/// The headers a request carries, each name once.
#[derive(Debug)]
pub struct Headers {
    /// In the order their names were first set.
    pub list: Vec<Header>,
}

impl View for Headers {
    type V = Map<Seq<char>, HeaderModel>;

    open spec fn view(&self) -> Map<Seq<char>, HeaderModel> {
        headers_model(self.list@)
    }
}

proof fn lemma_replaced(headers: Seq<Header>, at: int, header: Header)
    requires
        0 <= at < headers.len(),
        names_differ(headers),
        headers[at].name@ == header.name@,
    ensures
        headers_model(headers.update(at, header)) == headers_model(headers).insert(
            header.name@,
            HeaderModel { value: header.value@, sensitive: header.sensitive },
        ),
        names_differ(headers.update(at, header)),
    decreases headers.len(),
{
    let after = headers.update(at, header);
    let front = headers.drop_last();
    let model = HeaderModel { value: header.value@, sensitive: header.sensitive };
    if at < headers.len() - 1 {
        let last = headers.last();
        assert(after.drop_last() =~= front.update(at, header));
        assert(headers[at].name@ != headers[headers.len() - 1].name@);
        lemma_replaced(front, at, header);
        let other = HeaderModel { value: last.value@, sensitive: last.sensitive };
        assert(headers_model(front).insert(header.name@, model).insert(last.name@, other)
            =~= headers_model(front).insert(last.name@, other).insert(header.name@, model));
    } else {
        assert(after.drop_last() =~= front);
        assert(headers_model(headers).insert(header.name@, model) =~= headers_model(front).insert(
            header.name@,
            model,
        ));
    }
    assert forall|i: int, j: int| 0 <= i < j < after.len() implies after[i].name@
        != after[j].name@ by {
        assert(headers[i].name@ != headers[j].name@);
    }
}

impl Headers {
    /// Whether each name stands once.
    pub open spec fn wf(&self) -> bool {
        names_differ(self.list@)
    }

    /// No headers.
    pub fn new() -> (headers: Headers)
        ensures
            headers.wf(),
            headers@ == Map::<Seq<char>, HeaderModel>::empty(),
    {
        Headers { list: Vec::new() }
    }

    /// Sets the header `name`, in place of any that stood there.
    pub fn set(&mut self, name: String, value: String, sensitive: bool)
        requires
            old(self).wf(),
        ensures
            final(self).wf(),
            final(self)@ == old(self)@.insert(name@, HeaderModel { value: value@, sensitive }),
    {
        let ghost before = self.list@;
        let mut i: usize = 0;
        while i < self.list.len()
            invariant
                0 <= i <= self.list@.len(),
                self.list@ == before,
                before == old(self).list@,
                names_differ(before),
                forall|j: int| 0 <= j < i ==> (#[trigger] before[j]).name@ != name@,
            decreases self.list@.len() - i,
        {
            if text::same(self.list[i].name.as_str(), name.as_str()) {
                let header = Header { name, value, sensitive };
                proof {
                    lemma_replaced(before, i as int, header);
                }
                self.list.set(i, header);
                return;
            }
            i += 1;
        }
        self.list.push(Header { name, value, sensitive });
        assert(self.list@.drop_last() =~= before);
    }

    /// The header `name`, which is in lower case.
    pub fn get(&self, name: &str) -> (found: Option<&Header>)
        ensures
            match found {
                Some(header) => self@.contains_key(name@) && self@[name@] == (HeaderModel {
                    value: header.value@,
                    sensitive: header.sensitive,
                }),
                None => !self@.contains_key(name@),
            },
    {
        let mut n: usize = self.list.len();
        assert(self.list@.subrange(0, n as int) =~= self.list@);
        while n > 0
            invariant
                n <= self.list@.len(),
                self@.contains_key(name@) == headers_model(
                    self.list@.subrange(0, n as int),
                ).contains_key(name@),
                self@.contains_key(name@) ==> self@[name@] == headers_model(
                    self.list@.subrange(0, n as int),
                )[name@],
            decreases n,
        {
            assert(self.list@.subrange(0, n as int).drop_last() =~= self.list@.subrange(0, n - 1));
            if text::same(self.list[n - 1].name.as_str(), name) {
                return Some(&self.list[n - 1]);
            }
            n -= 1;
        }
        None
    }
}

/// A header's name is compared whatever its case: in lower case it stays as it is, and it
/// stays a name of the same length.
pub proof fn names_are_compared_in_lower_case(name: Seq<char>, i: int)
    requires
        0 <= i < name.len(),
    ensures
        canonical_name(name).len() == name.len(),
        canonical_name(canonical_name(name)) == canonical_name(name),
        !('A' <= canonical_name(name)[i] <= 'Z'),
        !('A' <= name[i] <= 'Z') ==> canonical_name(name)[i] == name[i],
        'A' <= name[i] <= 'Z' ==> canonical_name(name)[i] as u32 == name[i] as u32 + 32,
{
    assert(canonical_name(canonical_name(name)) =~= canonical_name(name));
}

/// A header that is set is the one that is found, and every other stays as it was.
pub proof fn set_headers_are_found(headers: Seq<Header>, header: Header, other: Seq<char>)
    ensures
        headers_model(headers.push(header)).contains_key(header.name@),
        headers_model(headers.push(header))[header.name@].value == header.value@,
        headers_model(headers.push(header))[header.name@].sensitive == header.sensitive,
        other != header.name@ ==> headers_model(headers.push(header)).contains_key(other)
            == headers_model(headers).contains_key(other),
        other != header.name@ && headers_model(headers).contains_key(other) ==> headers_model(
            headers.push(header),
        )[other] == headers_model(headers)[other],
{
    assert(headers.push(header).drop_last() =~= headers);
}

/// What a message quotes of a body is the body without the white space around it where
/// that takes up to two hundred bytes, and else a beginning of it that does, and an
/// ellipsis.
pub proof fn bodies_are_quoted_up_to_a_limit(body: Seq<char>)
    ensures
        text::byte_len(text::trimmed(body)) <= 200 ==> body_excerpt(body) == text::trimmed(body),
        text::byte_len(text::trimmed(body)) > 200 ==> {
            let kept = body_excerpt(body).drop_last();
            &&& body_excerpt(body).last() == '…'
            &&& kept.is_prefix_of(text::trimmed(body))
            &&& text::byte_len(kept) <= 200
        },
{
    text::excerpts_are_bounded_beginnings(body, 200);
}

} // verus!
