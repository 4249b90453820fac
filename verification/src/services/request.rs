//! Requests as they come in.

use crate::table::Table;
use crate::text;
use std::str::Utf8Error;
use vstd::prelude::*;
use vstd::string::*;
use vstd::utf8::*;

verus! {

/// The value of a hexadecimal digit.
pub open spec fn hex_value(b: u8) -> Option<u8> {
    if 48 <= b <= 57 {
        Some((b - 48) as u8)
    } else if 65 <= b <= 70 {
        Some((b - 55) as u8)
    } else if 97 <= b <= 102 {
        Some((b - 87) as u8)
    } else {
        None
    }
}

/// Bytes with every percent sign that two hexadecimal digits follow replaced, together with
/// them, by the byte that the digits stand for.
pub open spec fn percent_decoded(s: Seq<u8>) -> Seq<u8>
    decreases s.len(),
{
    if s.len() == 0 {
        Seq::empty()
    } else if s[0] == 37 && s.len() >= 3 && hex_value(s[1]) is Some && hex_value(s[2]) is Some {
        seq![(hex_value(s[1])->0 * 16 + hex_value(s[2])->0) as u8] + percent_decoded(s.skip(3))
    } else {
        seq![s[0]] + percent_decoded(s.skip(1))
    }
}

/// The error for bytes that are not valid UTF-8.
#[verifier::external_type_specification]
#[verifier::external_body]
pub struct ExUtf8Error(Utf8Error);

/// `percent_encoding::percent_decode` with `decode_utf8`: the text whose bytes are those of `s`
/// after decoding, or an error where they are not valid UTF-8.
#[verifier::external_body]
fn decode_percent(s: &str) -> (r: Result<String, Utf8Error>)
    ensures
        match r {
            Ok(t) => valid_utf8(percent_decoded(encode_utf8(s@))) && encode_utf8(t@)
                == percent_decoded(encode_utf8(s@)),
            Err(_) => !valid_utf8(percent_decoded(encode_utf8(s@))),
        },
{
    percent_encoding::percent_decode(s.as_bytes()).decode_utf8().map(|t| t.into_owned())
}

/// The text that a percent-encoded text stands for, if it is one.
pub open spec fn decoded_path(s: Seq<char>) -> Option<Seq<char>> {
    let bytes = percent_decoded(encode_utf8(s));
    if valid_utf8(bytes) {
        Some(decode_utf8(bytes))
    } else {
        None
    }
}

/// A text without a percent sign stands for itself.
pub proof fn plain_paths_are_kept(s: Seq<u8>)
    requires
        !s.contains(37),
    ensures
        percent_decoded(s) == s,
    decreases s.len(),
{
    if s.len() > 0 {
        assert(s.contains(s[0]));
        assert(!s.skip(1).contains(37)) by {
            if s.skip(1).contains(37) {
                let i = choose|i: int| 0 <= i < s.skip(1).len() && s.skip(1)[i] == 37;
                assert(s[i + 1] == 37);
            }
        }
        plain_paths_are_kept(s.skip(1));
        assert(seq![s[0]] + s.skip(1) =~= s);
    }
}

/// The hexadecimal digit of a value below sixteen.
pub open spec fn hex_digit(v: nat) -> u8 {
    if v < 10 {
        (48 + v) as u8
    } else {
        (55 + v) as u8
    }
}

/// Bytes with each of them written as a percent sign and two hexadecimal digits.
pub open spec fn percent_encoded(s: Seq<u8>) -> Seq<u8>
    decreases s.len(),
{
    if s.len() == 0 {
        Seq::empty()
    } else {
        seq![37u8, hex_digit((s[0] / 16) as nat), hex_digit((s[0] % 16) as nat)] + percent_encoded(
            s.skip(1),
        )
    }
}

/// Decoding gives back what was encoded, whatever bytes these are.
pub proof fn decoding_undoes_encoding(s: Seq<u8>)
    ensures
        percent_decoded(percent_encoded(s)) == s,
    decreases s.len(),
{
    if s.len() > 0 {
        decoding_undoes_encoding(s.skip(1));
        let e = percent_encoded(s);
        let b = s[0];
        assert(b / 16 < 16 && b % 16 < 16 && b == (b / 16) * 16 + b % 16);
        assert(hex_value(hex_digit((b / 16) as nat)) == Some((b / 16) as u8));
        assert(hex_value(hex_digit((b % 16) as nat)) == Some((b % 16) as u8));
        assert(e.skip(3) =~= percent_encoded(s.skip(1)));
        assert(seq![b] + s.skip(1) =~= s);
    }
}

/// Small hexadecimal digits count as the capital ones do.
pub proof fn small_digits_count_alike(b: u8)
    requires
        65 <= b <= 70,
    ensures
        hex_value(b) == hex_value((b + 32) as u8),
        hex_value(b) is Some,
{
}

/// A dot at `i` starts a segment of a path.
pub open spec fn hidden_at(s: Seq<char>, i: int) -> bool {
    0 <= i < s.len() && s[i] == '.' && (i == 0 || s[i - 1] == '/')
}

/// A segment of the path starts with a dot, so that it is a special directory or a hidden name.
pub open spec fn has_hidden_segment(s: Seq<char>) -> bool {
    exists|i: int| hidden_at(s, i)
}

/// Whether a segment of the path starts with a dot.
pub fn is_hidden(path: &str) -> (r: bool)
    ensures
        r == has_hidden_segment(path@),
{
    let x = text::chars_of(path);
    let mut i: usize = 0;
    while i < x.len()
        invariant
            x@ == path@,
            i <= x.len(),
            forall|j: int| 0 <= j < i ==> !hidden_at(path@, j),
        decreases x.len() - i,
    {
        if x[i] == '.' && (i == 0 || x[i - 1] == '/') {
            assert(hidden_at(path@, i as int));
            return true;
        }
        i += 1;
    }
    assert forall|j: int| !hidden_at(path@, j) by {
        if 0 <= j < path@.len() {
            assert(!hidden_at(path@, j));
        }
    }
    false
}

/// Why a request is refused.
#[derive(Debug)]
pub enum RequestError {
    /// Its path is not valid UTF-8.
    NotUtf8,
    /// Its path has a segment that starts with a dot.
    HiddenSegment,
    /// Its path lacks the prefix of the server.
    MissingPrefix(String),
}

/// The address of a client.
#[derive(Debug)]
pub enum RemoteIpAddr {
    Direct(String),
    Proxied(String),
}

impl RemoteIpAddr {
    /// The address itself.
    pub fn as_ref(&self) -> (r: &str)
        ensures
            r@ == match self {
                RemoteIpAddr::Direct(a) => a@,
                RemoteIpAddr::Proxied(a) => a@,
            },
    {
        match self {
            RemoteIpAddr::Direct(a) => a.as_str(),
            RemoteIpAddr::Proxied(a) => a.as_str(),
        }
    }

    /// The address as it is shown.
    pub fn to_text(&self) -> (r: String)
        ensures
            r@ == match self {
                RemoteIpAddr::Direct(a) => a@,
                RemoteIpAddr::Proxied(a) => "Proxied: "@ + a@,
            },
    {
        match self {
            RemoteIpAddr::Direct(a) => a.clone(),
            RemoteIpAddr::Proxied(a) => text::join_text("Proxied: ", a.as_str()),
        }
    }
}

/// The parameters of a request.
#[derive(Debug)]
pub struct QueryParams {
    params: Option<Table<String>>,
}

impl View for QueryParams {
    type V = Map<Seq<char>, Seq<char>>;

    closed spec fn view(&self) -> Map<Seq<char>, Seq<char>> {
        match self.params {
            Some(t) => t@.map_values(|v: String| v@),
            None => Map::empty(),
        }
    }
}

/// The pairs of names and values that `form_urlencoded` reads in a text.
pub uninterp spec fn form_pairs(s: Seq<char>) -> Seq<(Seq<char>, Seq<char>)>;

/// The views of pairs of texts.
pub open spec fn pair_views(v: Seq<(String, String)>) -> Seq<(Seq<char>, Seq<char>)> {
    v.map_values(|p: (String, String)| (p.0@, p.1@))
}

/// `url::form_urlencoded::parse`: the names and values of a query, decoded, in their order. It
/// is a function of the text alone.
#[verifier::external_body]
fn parse_form(s: &str) -> (r: Vec<(String, String)>)
    ensures
        pair_views(r@) == form_pairs(s@),
{
    url::form_urlencoded::parse(s.as_bytes()).into_owned().collect()
}

/// The values of named pairs; of a name that occurs twice the last value counts.
pub open spec fn last_values(pairs: Seq<(Seq<char>, Seq<char>)>) -> Map<Seq<char>, Seq<char>>
    decreases pairs.len(),
{
    if pairs.len() == 0 {
        Map::empty()
    } else {
        last_values(pairs.drop_last()).insert(pairs.last().0, pairs.last().1)
    }
}

impl QueryParams {
    /// The parameters can be looked up.
    pub closed spec fn wf(&self) -> bool {
        self.params is Some ==> self.params->0.wf()
    }

    /// The parameters of the given pairs; none if there is no query.
    pub fn from_pairs(pairs: Option<Vec<(String, String)>>) -> (r: Self)
        ensures
            r.wf(),
            r@ == match pairs {
                Some(v) => last_values(pair_views(v@)),
                None => Map::empty(),
            },
    {
        match pairs {
            Some(v) => {
                let mut t: Table<String> = Table::new();
                let ghost all = pair_views(v@);
                let ghost mut k: int = 0;
                assert(t@.map_values(|v: String| v@) =~= last_values(all.take(0)));
                for p in it: v
                    invariant
                        it.seq() == v@,
                        k == it.index(),
                        all == pair_views(v@),
                        t.wf(),
                        t@.map_values(|v: String| v@) == last_values(all.take(k)),
                {
                    let (name, value) = p;
                    let ghost before = t@;
                    assert(all[k] == (name@, value@));
                    assert(all.take(k + 1).drop_last() =~= all.take(k));
                    t.insert(name, value);
                    assert(t@.map_values(|v: String| v@) =~= last_values(all.take(k + 1)));
                    proof {
                        k = k + 1;
                    }
                }
                assert(all.take(k) =~= all);
                QueryParams { params: Some(t) }
            },
            None => QueryParams { params: None },
        }
    }

    /// The value of a parameter.
    pub fn get(&self, name: &str) -> (r: Option<&str>)
        requires
            self.wf(),
        ensures
            match r {
                Some(v) => self@.contains_key(name@) && self@[name@] == v@,
                None => !self@.contains_key(name@),
            },
    {
        match &self.params {
            Some(t) => match t.get(name) {
                Some(v) => Some(v.as_str()),
                None => None,
            },
            None => None,
        }
    }

    /// Whether a parameter is there.
    pub fn is_present(&self, name: &str) -> (r: bool)
        requires
            self.wf(),
        ensures
            r == self@.contains_key(name@),
    {
        self.get(name).is_some()
    }

    /// The value of a parameter.
    pub fn get_string(&self, name: &str) -> (r: Option<String>)
        requires
            self.wf(),
        ensures
            match r {
                Some(v) => self@.contains_key(name@) && self@[name@] == v@,
                None => !self@.contains_key(name@),
            },
    {
        match self.get(name) {
            Some(v) => Some(v.to_owned()),
            None => None,
        }
    }
}

/// A request whose path was checked.
#[derive(Debug)]
pub struct RequestWrapper {
    path: String,
    query: Option<String>,
    remote_addr: String,
    is_ssl: bool,
    is_behind_proxy: bool,
}

/// A checked request, with texts for its parts.
pub struct RequestView {
    pub path: Seq<char>,
    pub query: Option<Seq<char>>,
    pub remote_addr: Seq<char>,
    pub is_ssl: bool,
    pub is_behind_proxy: bool,
}

impl View for RequestWrapper {
    type V = RequestView;

    closed spec fn view(&self) -> RequestView {
        RequestView {
            path: self.path@,
            query: match self.query {
                Some(q) => Some(q@),
                None => None,
            },
            remote_addr: self.remote_addr@,
            is_ssl: self.is_ssl,
            is_behind_proxy: self.is_behind_proxy,
        }
    }
}

/// Why a request with the given path is refused.
pub enum Refusal {
    NotUtf8,
    HiddenSegment,
    MissingPrefix(Seq<char>),
}

/// The path that a request asks for, below the prefix of the server, or why it is refused.
pub open spec fn checked_path(raw: Seq<char>, prefix: Option<Seq<char>>) -> Result<
    Seq<char>,
    Refusal,
> {
    match decoded_path(raw) {
        None => Err(Refusal::NotUtf8),
        Some(path) => if has_hidden_segment(path) {
            Err(Refusal::HiddenSegment)
        } else {
            match prefix {
                None => Ok(path),
                Some(p) => if !p.is_prefix_of(path) {
                    Err(Refusal::MissingPrefix(p))
                } else if p.len() == path.len() {
                    Ok(seq!['/'])
                } else {
                    Ok(path.skip(p.len() as int))
                },
            }
        },
    }
}

/// A checked path below a prefix that ends a segment leads to no special directory and no hidden
/// name.
pub proof fn checked_paths_are_not_hidden(raw: Seq<char>, prefix: Option<Seq<char>>)
    requires
        prefix is Some ==> prefix->0.len() == 0 || prefix->0.last() == '/' || checked_path(
            raw,
            prefix,
        ) is Err || checked_path(raw, prefix)->Ok_0[0] == '/',
    ensures
        checked_path(raw, prefix) is Ok ==> !has_hidden_segment(checked_path(raw, prefix)->Ok_0),
{
    if let Ok(path) = checked_path(raw, prefix) {
        let whole = decoded_path(raw)->0;
        if has_hidden_segment(path) {
            let i = choose|i: int| hidden_at(path, i);
            if prefix is Some && prefix->0.len() < whole.len() {
                let d = prefix->0.len() as int;
                assert(path[i] == whole[i + d]);
                if i > 0 {
                    assert(path[i - 1] == whole[i + d - 1]);
                } else if d > 0 {
                    assert(whole.subrange(0, d)[d - 1] == whole[d - 1]);
                }
                assert(hidden_at(whole, i + d));
            } else if prefix is Some {
                assert(path == seq!['/']);
            }
        }
    }
}

/// A checked path, behind the prefix of the server, is the path that was sent, decoded; where
/// nothing follows the prefix it is the root.
pub proof fn checked_path_is_the_sent_one(raw: Seq<char>, prefix: Option<Seq<char>>)
    ensures
        match (checked_path(raw, prefix), decoded_path(raw)) {
            (Ok(path), Some(sent)) => {
                &&& prefix is None ==> path == sent
                &&& prefix is Some ==> prefix->0 + path == sent || (prefix->0 == sent && path
                    == seq!['/'])
                &&& !has_hidden_segment(sent)
            },
            (Ok(_), None) => false,
            _ => true,
        },
{
    if let Some(sent) = decoded_path(raw) {
        if let Some(p) = prefix {
            if p.is_prefix_of(sent) {
                assert(p =~= sent.subrange(0, p.len() as int));
                assert(p + sent.skip(p.len() as int) =~= sent);
                if p.len() == sent.len() {
                    assert(p =~= sent);
                }
            }
        }
    }
}

/// A path is refused for three reasons and no others: it is no text, it has a segment that starts
/// with a dot, or it lacks the prefix of the server.
pub proof fn paths_are_refused_for_a_reason(raw: Seq<char>, prefix: Option<Seq<char>>)
    ensures
        ({
            let sent = decoded_path(raw);
            let dots = sent is Some && exists|a: Seq<char>|
                (a.len() == 0 || a.last() == '/') && #[trigger] a.push('.').is_prefix_of(sent->0);
            let r = checked_path(raw, prefix);
            match r {
                Err(Refusal::NotUtf8) => sent is None,
                Err(Refusal::HiddenSegment) => dots,
                Err(Refusal::MissingPrefix(p)) => sent is Some && !dots && prefix == Some(p)
                    && !p.is_prefix_of(sent->0),
                Ok(_) => sent is Some && !dots && (prefix is Some ==> prefix->0.is_prefix_of(
                    sent->0,
                )),
            }
        }),
{
    if let Some(sent) = decoded_path(raw) {
        if has_hidden_segment(sent) {
            let i = choose|i: int| hidden_at(sent, i);
            let a = sent.take(i);
            assert(a.push('.') =~= sent.subrange(0, i + 1));
            assert(a.push('.').is_prefix_of(sent));
        }
        if exists|a: Seq<char>|
            (a.len() == 0 || a.last() == '/') && #[trigger] a.push('.').is_prefix_of(sent) {
            let a = choose|a: Seq<char>|
                (a.len() == 0 || a.last() == '/') && #[trigger] a.push('.').is_prefix_of(sent);
            let n = a.len() as int;
            let b = a.push('.');
            assert(b =~= sent.subrange(0, n + 1));
            assert(sent[n] == b[n]);
            if n > 0 {
                assert(sent[n - 1] == b[n - 1]);
            }
            assert(hidden_at(sent, n));
        }
    }
}

/// A parameter has the value of the last pair of its name, and there is one if there is such a
/// pair.
pub proof fn last_value_counts(pairs: Seq<(Seq<char>, Seq<char>)>, name: Seq<char>, i: int)
    ensures
        last_values(pairs).contains_key(name) <==> exists|j: int|
            0 <= j < pairs.len() && (#[trigger] pairs[j]).0 == name,
        0 <= i < pairs.len() && pairs[i].0 == name && (forall|j: int|
            i < j < pairs.len() ==> (#[trigger] pairs[j]).0 != name) ==> last_values(pairs)[name]
            == pairs[i].1,
    decreases pairs.len(),
{
    if pairs.len() > 0 {
        let front = pairs.drop_last();
        last_value_counts(front, name, i);
        let n = pairs.len() - 1;
        if last_values(front).contains_key(name) {
            let j = choose|j: int| 0 <= j < front.len() && (#[trigger] front[j]).0 == name;
            assert(pairs[j].0 == name);
        }
        if exists|j: int| 0 <= j < pairs.len() && (#[trigger] pairs[j]).0 == name {
            let j = choose|j: int| 0 <= j < pairs.len() && (#[trigger] pairs[j]).0 == name;
            if j < n {
                assert(front[j].0 == name);
            }
        }
        if pairs[n].0 == name {
            assert(pairs[n].0 == name);
        }
        if 0 <= i < n && pairs[i].0 == name && (forall|j: int|
            i < j < pairs.len() ==> (#[trigger] pairs[j]).0 != name) {
            assert(pairs[n].0 != name);
            assert(front[i] == pairs[i]);
            assert forall|j: int| i < j < front.len() implies (#[trigger] front[j]).0 != name by {
                assert(pairs[j].0 != name);
            }
        }
    }
}

/// The text of UTF-8 bytes is determined by them.
proof fn text_of_bytes(t: Seq<char>, bytes: Seq<u8>)
    requires
        encode_utf8(t) == bytes,
    ensures
        t == decode_utf8(bytes),
{
    encode_utf8_decode_utf8(t);
}

impl RequestWrapper {
    /// Checks the path of a request and takes off the prefix of the server.
    pub fn new(
        raw_path: &str,
        query: Option<String>,
        path_prefix: Option<&str>,
        remote_addr: String,
        is_ssl: bool,
        is_behind_proxy: bool,
    ) -> (r: Result<Self, RequestError>)
        ensures
            match checked_path(
                raw_path@,
                match path_prefix {
                    Some(p) => Some(p@),
                    None => None,
                },
            ) {
                Ok(path) => r is Ok && r->Ok_0@ == (RequestView {
                    path,
                    query: match query {
                        Some(q) => Some(q@),
                        None => None,
                    },
                    remote_addr: remote_addr@,
                    is_ssl,
                    is_behind_proxy,
                }),
                Err(Refusal::NotUtf8) => r is Err && r->Err_0 is NotUtf8,
                Err(Refusal::HiddenSegment) => r is Err && r->Err_0 is HiddenSegment,
                Err(Refusal::MissingPrefix(p)) => match r {
                    Err(RequestError::MissingPrefix(q)) => q@ == p,
                    _ => false,
                },
            },
    {
        let path = match decode_percent(raw_path) {
            Ok(s) => {
                proof {
                    text_of_bytes(s@, percent_decoded(encode_utf8(raw_path@)));
                }
                s
            },
            Err(_) => return Err(RequestError::NotUtf8),
        };
        if is_hidden(path.as_str()) {
            return Err(RequestError::HiddenSegment);
        }
        let path = match path_prefix {
            Some(p) => match text::strip_text(path.as_str(), p) {
                Some(s) => {
                    proof {
                        reveal_strlit("/");
                        assert("/"@ =~= seq!['/']);
                        assert(p@ =~= path@.subrange(0, p@.len() as int));
                        assert(s@ =~= path@.skip(p@.len() as int));
                    }
                    if s.unicode_len() == 0 {
                        "/".to_owned()
                    } else {
                        s.to_owned()
                    }
                },
                None => return Err(RequestError::MissingPrefix(p.to_owned())),
            },
            None => path,
        };
        Ok(RequestWrapper { path, query, remote_addr, is_ssl, is_behind_proxy })
    }

    /// The path that is asked for.
    pub fn path(&self) -> (r: &str)
        ensures
            r@ == self@.path,
    {
        self.path.as_str()
    }

    /// The address of the client: behind a proxy the one that the proxy gives, if it gives one,
    /// and else that of the connection.
    pub fn remote_addr(&self, forwarded: Option<String>, x_forwarded_for: Option<String>) -> (r:
        Option<RemoteIpAddr>)
        ensures
            match r {
                Some(RemoteIpAddr::Direct(a)) => !self@.is_behind_proxy && a@ == self@.remote_addr,
                Some(RemoteIpAddr::Proxied(a)) => self@.is_behind_proxy && (forwarded == Some(a)
                    || (forwarded is None && x_forwarded_for == Some(a))),
                None => self@.is_behind_proxy && forwarded is None && x_forwarded_for is None,
            },
    {
        if self.is_behind_proxy {
            match forwarded {
                Some(a) => Some(RemoteIpAddr::Proxied(a)),
                None => match x_forwarded_for {
                    Some(a) => Some(RemoteIpAddr::Proxied(a)),
                    None => None,
                },
            }
        } else {
            Some(RemoteIpAddr::Direct(self.remote_addr.clone()))
        }
    }

    /// The parameters of the request.
    pub fn params(&self) -> (r: QueryParams)
        ensures
            r.wf(),
            r@ == match self@.query {
                Some(q) => last_values(form_pairs(q)),
                None => Map::empty(),
            },
    {
        match &self.query {
            Some(q) => QueryParams::from_pairs(Some(parse_form(q.as_str()))),
            None => QueryParams::from_pairs(None),
        }
    }

    /// Whether the client speaks HTTPS: to the server, or to the proxy before it by what the
    /// proxy tells.
    pub fn is_https(&self, forwarded_proto: Option<&str>, x_forwarded_proto: Option<&str>) -> (r:
        bool)
        ensures
            r == (self@.is_ssl || (self@.is_behind_proxy && ((forwarded_proto is Some
                && forwarded_proto->0@ == "https"@) || (x_forwarded_proto is Some
                && x_forwarded_proto->0@ == "https"@)))),
    {
        if self.is_ssl {
            return true;
        }
        if self.is_behind_proxy {
            if let Some(p) = forwarded_proto {
                if text::same_text(p, "https") {
                    return true;
                }
            }
            return match x_forwarded_proto {
                Some(p) => text::same_text(p, "https"),
                None => false,
            };
        }
        false
    }
}

/// The bytes of the first `n` parts of a body.
pub open spec fn joined_parts<E>(parts: Seq<Result<Vec<u8>, E>>, n: int) -> Seq<u8>
    decreases n,
{
    if n <= 0 {
        Seq::empty()
    } else {
        joined_parts(parts, n - 1) + parts[n - 1]->Ok_0@
    }
}

/// The body of a request holds its parts one after the other: each of them stands behind those
/// before it, and nothing else is there.
pub proof fn body_holds_its_parts<E>(parts: Seq<Result<Vec<u8>, E>>, i: int, n: int)
    requires
        0 <= i < n <= parts.len(),
    ensures
        ({
            let at = joined_parts(parts, i).len() as int;
            let part = parts[i]->Ok_0@;
            &&& at + part.len() <= joined_parts(parts, n).len()
            &&& joined_parts(parts, n).subrange(at, at + part.len()) == part
            &&& joined_parts(parts, 0).len() == 0
            &&& i == n - 1 ==> joined_parts(parts, n).len() == at + part.len()
        }),
    decreases n,
{
    let at = joined_parts(parts, i).len() as int;
    let part = parts[i]->Ok_0@;
    if i == n - 1 {
        assert(joined_parts(parts, n).subrange(at, at + part.len()) =~= part);
    } else {
        body_holds_its_parts(parts, i, n - 1);
        let before = joined_parts(parts, n - 1);
        assert(joined_parts(parts, n).subrange(at, at + part.len()) =~= before.subrange(
            at,
            at + part.len(),
        ));
    }
}

impl RequestWrapper {
    /// The whole body of a request from its parts; a part that could not be read makes the whole
    /// unreadable, and what follows it does not matter.
    pub fn body_bytes<E>(parts: Vec<Result<Vec<u8>, E>>) -> (r: Result<Vec<u8>, E>)
        ensures
            match r {
                Ok(b) => (forall|i: int| 0 <= i < parts@.len() ==> #[trigger] parts@[i] is Ok) && b@
                    == joined_parts(parts@, parts@.len() as int),
                Err(e) => exists|i: int|
                    0 <= i < parts@.len() && #[trigger] parts@[i] == Err::<Vec<u8>, E>(e) && forall|
                        j: int,
                    |
                        0 <= j < i ==> #[trigger] parts@[j] is Ok,
            },
    {
        let mut buf: Vec<u8> = Vec::new();
        let ghost mut k: int = 0;
        for p in it: parts
            invariant
                it.seq() == parts@,
                k == it.index(),
                forall|i: int| 0 <= i < k ==> #[trigger] parts@[i] is Ok,
                buf@ == joined_parts(parts@, k),
        {
            match p {
                Ok(data) => {
                    let mut data = data;
                    buf.append(&mut data);
                },
                Err(e) => {
                    assert(parts@[k] == Err::<Vec<u8>, E>(e));
                    return Err(e);
                },
            }
            proof {
                k = k + 1;
            }
        }
        Ok(buf)
    }
}

/// What a proxy tells of the client counts only behind one: else the address is that of the
/// connection, and the client speaks HTTPS only if the connection does.
pub proof fn proxies_are_believed_only_where_expected(
    req: &RequestWrapper,
    forwarded: Option<String>,
    x_forwarded_for: Option<String>,
    addr: Option<RemoteIpAddr>,
    proto: Option<&str>,
    x_proto: Option<&str>,
    https: bool,
)
    requires
        call_ensures(RequestWrapper::remote_addr, (req, forwarded, x_forwarded_for), addr),
        call_ensures(RequestWrapper::is_https, (req, proto, x_proto), https),
    ensures
        !req@.is_behind_proxy ==> match addr {
            Some(RemoteIpAddr::Direct(a)) => a@ == req@.remote_addr,
            _ => false,
        },
        req@.is_behind_proxy ==> match addr {
            Some(RemoteIpAddr::Proxied(a)) => forwarded == Some(a) || (forwarded is None
                && x_forwarded_for == Some(a)),
            Some(RemoteIpAddr::Direct(_)) => false,
            None => forwarded is None && x_forwarded_for is None,
        },
        !req@.is_behind_proxy ==> https == req@.is_ssl,
        req@.is_ssl ==> https,
        req@.is_behind_proxy && !req@.is_ssl ==> (https <==> (proto is Some && proto->0@
            == "https"@) || (x_proto is Some && x_proto->0@ == "https"@)),
{
}

} // verus!
