//! Which transport serves a source URL, and in which order the sources of
//! a fetch are tried.

use vstd::prelude::*;
use crate::digest::{hex_encode, hex_spec};
use crate::error::{MagError, MagErrorView};
use crate::package::strings_view;
use crate::store::opt_view;
use crate::text::{
    chars_of, concat2, concat3, ends_with, lower_spec, starts_with, str_ends_with, str_eq,
    str_starts_with, str_to_ascii_lowercase, str_trim, str_trim_start, trim_spec,
    trim_start_spec,
};

verus! {

/// The parts of a URL that the store reads.
#[derive(Debug)]
pub struct ParsedUrl {
    /// The scheme, without the colon.
    pub scheme: String,
    /// The host, where the URL has one.
    pub host: Option<String>,
    /// The path.
    pub path: String,
    /// The URL as the parser writes it.
    pub text: String,
    /// The keys and values of the query, decoded, in their order.
    pub query: Vec<(String, String)>,
}

/// The mathematical value of a [`ParsedUrl`]: scheme, host, path, text
/// and the pairs of the query.
pub type UrlParts = (
    Seq<char>,
    Option<Seq<char>>,
    Seq<char>,
    Seq<char>,
    Seq<(Seq<char>, Seq<char>)>,
);

/// The values of a list of pairs of texts.
pub open spec fn pairs_view(v: Seq<(String, String)>) -> Seq<(Seq<char>, Seq<char>)> {
    Seq::new(v.len(), |i: int| (v[i].0@, v[i].1@))
}

impl View for ParsedUrl {
    type V = UrlParts;

    open spec fn view(&self) -> UrlParts {
        (self.scheme@, opt_view(self.host), self.path@, self.text@, pairs_view(self.query@))
    }
}

/// The value of an optional URL.
pub open spec fn parsed_view(p: Option<ParsedUrl>) -> Option<UrlParts> {
    match p {
        Some(u) => Some(u@),
        None => None,
    }
}

/// What the URL parser makes of a text: the parts of the URL, or nothing
/// where the text is no absolute URL.
pub uninterp spec fn url_parts(url: Seq<char>) -> Option<UrlParts>;

/// Parses a URL.
///
/// Trusted: `reqwest::Url::parse` and the accessors `scheme`, `host_str`,
/// `path`, `as_str` and `query_pairs` of the URL it returns. The contract
/// names the result; it claims nothing of what the parts are.
#[verifier::external_body]
fn parse_url_raw(url: &str) -> (r: Option<ParsedUrl>)
    ensures
        parsed_view(r) == url_parts(url@),
{
    match reqwest::Url::parse(url) {
        Ok(u) => Some(
            ParsedUrl {
                scheme: u.scheme().to_string(),
                host: u.host_str().map(|h| h.to_string()),
                path: u.path().to_string(),
                text: u.as_str().to_string(),
                query: u.query_pairs().map(|(k, v)| (k.into_owned(), v.into_owned())).collect(),
            },
        ),
        Err(_) => None,
    }
}

/// Parses a URL: its scheme, host, path and text, or nothing where `url`
/// is no absolute URL.
pub fn parse_url(url: &str) -> (r: Option<ParsedUrl>)
    ensures
        parsed_view(r) == url_parts(url@),
{
    parse_url_raw(url)
}

/// A URL is torrent-like when it begins with `magnet:` after leading white
/// space, when its scheme is `magnet`, or when its path ends in `.torrent`,
/// in whatever case.
pub open spec fn torrent_like(url: Seq<char>, parsed: Option<UrlParts>) -> bool {
    starts_with(trim_start_spec(url), "magnet:"@) || match parsed {
        Some(parts) => parts.0 == "magnet"@ || ends_with(lower_spec(parts.2), ".torrent"@),
        None => false,
    }
}

/// Whether a URL is torrent-like.
pub open spec fn is_torrent_url_spec(url: Seq<char>) -> bool {
    torrent_like(url, url_parts(url))
}

/// Whether `url`, which the parser read as `parsed`, is torrent-like.
pub fn is_torrent_url_parsed(url: &str, parsed: &Option<ParsedUrl>) -> (r: bool)
    ensures
        r == torrent_like(url@, parsed_view(*parsed)),
{
    let lead = str_trim_start(url);
    if str_starts_with(lead.as_str(), "magnet:") {
        return true;
    }
    match parsed {
        Some(p) => {
            if str_eq(p.scheme.as_str(), "magnet") {
                return true;
            }
            let lower = str_to_ascii_lowercase(p.path.as_str());
            str_ends_with(lower.as_str(), ".torrent")
        },
        None => false,
    }
}

/// Whether `url` is torrent-like: a magnet link or the address of a `.torrent` file.
pub fn is_torrent_url(url: &str) -> (r: bool)
    ensures
        r == is_torrent_url_spec(url@),
{
    let parsed = parse_url(url);
    is_torrent_url_parsed(url, &parsed)
}

/// The first `n` of `urls` that are torrent-like (`torrent`) or not, in their order.
pub open spec fn pick(urls: Seq<Seq<char>>, torrent: bool, n: int) -> Seq<Seq<char>>
    decreases n,
{
    if n <= 0 {
        Seq::empty()
    } else if is_torrent_url_spec(urls[n - 1]) == torrent {
        pick(urls, torrent, n - 1).push(urls[n - 1])
    } else {
        pick(urls, torrent, n - 1)
    }
}

/// The order in which the sources of a fetch are tried: the torrent-like
/// ones first, then the others, each group in the order given.
pub open spec fn prioritized_spec(urls: Seq<Seq<char>>) -> Seq<Seq<char>> {
    pick(urls, true, urls.len() as int) + pick(urls, false, urls.len() as int)
}

/// Puts the sources of a fetch in the order in which they are tried.
pub fn prioritize_urls(urls: &Vec<String>) -> (out: Vec<String>)
    ensures
        strings_view(out@) == prioritized_spec(strings_view(urls@)),
        out@.len() == urls@.len(),
{
    let ghost all = strings_view(urls@);
    let mut first: Vec<String> = Vec::new();
    let mut second: Vec<String> = Vec::new();
    let mut i: usize = 0;
    assert(strings_view(first@) =~= pick(all, true, 0));
    assert(strings_view(second@) =~= pick(all, false, 0));
    while i < urls.len()
        invariant
            i <= urls@.len(),
            all == strings_view(urls@),
            strings_view(first@) == pick(all, true, i as int),
            strings_view(second@) == pick(all, false, i as int),
            first@.len() + second@.len() == i,
        decreases urls@.len() - i,
    {
        let ghost torrents_before = strings_view(first@);
        let ghost others_before = strings_view(second@);
        assert(all[i as int] == urls@[i as int]@);
        if is_torrent_url(urls[i].as_str()) {
            first.push(urls[i].clone());
            assert(strings_view(first@) =~= torrents_before.push(urls@[i as int]@));
        } else {
            second.push(urls[i].clone());
            assert(strings_view(second@) =~= others_before.push(urls@[i as int]@));
        }
        i = i + 1;
    }
    let ghost torrents_all = strings_view(first@);
    let mut k: usize = 0;
    let ghost base = first@.len();
    while k < second.len()
        invariant
            k <= second@.len(),
            first@.len() == base + k,
            strings_view(first@) == torrents_all + strings_view(second@).subrange(0, k as int),
        decreases second@.len() - k,
    {
        let ghost before = strings_view(first@);
        first.push(second[k].clone());
        assert(strings_view(first@) =~= before.push(second@[k as int]@));
        k = k + 1;
        assert(strings_view(first@) =~= torrents_all + strings_view(second@).subrange(0, k as int));
    }
    assert(strings_view(second@).subrange(0, second@.len() as int) =~= strings_view(second@));
    first
}

/// Every source is tried, none twice: the order of trial has as many
/// torrent-like sources as the list given, and as many others.
pub proof fn lemma_pick_len(urls: Seq<Seq<char>>, n: int)
    requires
        0 <= n <= urls.len(),
    ensures
        pick(urls, true, n).len() + pick(urls, false, n).len() == n,
    decreases n,
{
    if n > 0 {
        lemma_pick_len(urls, n - 1);
    }
}

/// What is picked has the property asked for.
pub proof fn lemma_pick_all(urls: Seq<Seq<char>>, torrent: bool, n: int, k: int)
    requires
        0 <= n <= urls.len(),
        0 <= k < pick(urls, torrent, n).len(),
    ensures
        is_torrent_url_spec(pick(urls, torrent, n)[k]) == torrent,
    decreases n,
{
    if n > 0 {
        let before = pick(urls, torrent, n - 1);
        if k < before.len() {
            lemma_pick_all(urls, torrent, n - 1, k);
        }
    }
}

/// In the order of trial no torrent-like source stands behind another source.
pub proof fn lemma_torrents_first(urls: Seq<Seq<char>>, i: int, j: int)
    requires
        0 <= i < j < prioritized_spec(urls).len(),
        is_torrent_url_spec(prioritized_spec(urls)[j]),
    ensures
        is_torrent_url_spec(prioritized_spec(urls)[i]),
{
    let n = urls.len() as int;
    let first = pick(urls, true, n);
    let second = pick(urls, false, n);
    if j < first.len() {
        lemma_pick_all(urls, true, n, i);
    } else {
        lemma_pick_all(urls, false, n, j - first.len());
    }
}

/// The transport that serves a source.
#[derive(Debug)]
pub enum Transport {
    /// The torrent worker.
    Torrent,
    /// A local file, named by a `file:` URL.
    FileUrl,
    /// An HTTP or HTTPS download.
    Http,
    /// A local file, named by its path.
    LocalPath,
}

/// The transport for a source, or the reason why none serves it.
pub open spec fn transport_spec(url: Seq<char>, parsed: Option<UrlParts>) -> Result<
    Transport,
    MagErrorView,
> {
    if torrent_like(url, parsed) {
        Ok(Transport::Torrent)
    } else {
        match parsed {
            Some(parts) => if parts.0 == "file"@ {
                Ok(Transport::FileUrl)
            } else if parts.0 == "http"@ || parts.0 == "https"@ {
                Ok(Transport::Http)
            } else {
                Err(MagErrorView::UnsupportedScheme { scheme: parts.0 })
            },
            None => Ok(Transport::LocalPath),
        }
    }
}

/// Chooses the transport for `url`, which the parser read as `parsed`:
/// the torrent worker for a torrent-like URL, a stream for `file`, `http`
/// and `https`, a local file for what is no URL; no other scheme is served.
pub fn choose_transport_parsed(url: &str, parsed: &Option<ParsedUrl>) -> (r: Result<
    Transport,
    MagError,
>)
    ensures
        match r {
            Ok(t) => transport_spec(url@, parsed_view(*parsed)) == Ok::<_, MagErrorView>(t),
            Err(e) => transport_spec(url@, parsed_view(*parsed)) == Err::<Transport, _>(e@),
        },
{
    if is_torrent_url_parsed(url, parsed) {
        return Ok(Transport::Torrent);
    }
    match parsed {
        Some(p) => {
            if str_eq(p.scheme.as_str(), "file") {
                Ok(Transport::FileUrl)
            } else if str_eq(p.scheme.as_str(), "http") || str_eq(p.scheme.as_str(), "https") {
                Ok(Transport::Http)
            } else {
                Err(MagError::UnsupportedScheme { scheme: p.scheme.clone() })
            }
        },
        None => Ok(Transport::LocalPath),
    }
}

/// Chooses the transport for `url`.
pub fn choose_transport(url: &str) -> (r: Result<Transport, MagError>)
    ensures
        match r {
            Ok(t) => transport_spec(url@, url_parts(url@)) == Ok::<_, MagErrorView>(t),
            Err(e) => transport_spec(url@, url_parts(url@)) == Err::<Transport, _>(e@),
        },
{
    let parsed = parse_url(url);
    choose_transport_parsed(url, &parsed)
}

/// The local path that a `file:` URL names, `local` being the path that
/// the URL converts to, if it converts.
pub open spec fn file_url_path_spec(parts: UrlParts, local: Option<Seq<char>>) -> Result<
    Seq<char>,
    MagErrorView,
> {
    if parts.0 != "file"@ {
        Err(MagErrorView::Generic("expected file URL, got "@ + parts.3))
    } else if parts.1 is Some && parts.1->0.len() > 0 && parts.1->0 != "localhost"@ {
        Err(MagErrorView::Generic("unsupported file URL host: "@ + parts.1->0))
    } else {
        match local {
            None => Err(MagErrorView::Generic("invalid file URL: "@ + parts.3)),
            Some(path) => if path.len() > 0 && path[0] == '/' {
                Ok(path)
            } else {
                Err(MagErrorView::Generic("file URLs must reference absolute paths"@))
            },
        }
    }
}

/// The local path that the URL `url` names: the URL must have the scheme
/// `file` and no host but `localhost`, and must convert to an absolute
/// path, which `local` is.
pub fn file_url_to_path(url: &ParsedUrl, local: Option<String>) -> (r: Result<String, MagError>)
    ensures
        match r {
            Ok(path) => file_url_path_spec(url@, opt_view(local)) == Ok::<_, MagErrorView>(path@),
            Err(e) => file_url_path_spec(url@, opt_view(local)) == Err::<Seq<char>, _>(e@),
        },
{
    if !str_eq(url.scheme.as_str(), "file") {
        return Err(MagError::Generic(concat2("expected file URL, got ", url.text.as_str())));
    }
    match &url.host {
        Some(host) => {
            if !host.as_str().is_empty() && !str_eq(host.as_str(), "localhost") {
                return Err(
                    MagError::Generic(concat2("unsupported file URL host: ", host.as_str())),
                );
            }
        },
        None => {},
    }
    match local {
        None => Err(MagError::Generic(concat2("invalid file URL: ", url.text.as_str()))),
        Some(path) => {
            let v = chars_of(path.as_str());
            if v.len() > 0 && v[0] == '/' {
                Ok(path)
            } else {
                Err(
                    MagError::Generic(String::from_str("file URLs must reference absolute paths")),
                )
            }
        },
    }
}

/// The info hashes that a magnet link carries.
#[derive(Debug)]
pub struct MagnetIds {
    /// The version 1 hash: 20 bytes.
    pub id20: Option<Vec<u8>>,
    /// The version 2 hash: 32 bytes.
    pub id32: Option<Vec<u8>>,
}

/// The value of optional bytes.
pub open spec fn opt_bytes(b: Option<Vec<u8>>) -> Option<Seq<u8>> {
    match b {
        Some(v) => Some(v@),
        None => None,
    }
}

/// The value of what the magnet parser gives.
pub open spec fn magnet_view(r: Result<MagnetIds, String>) -> Result<
    (Option<Seq<u8>>, Option<Seq<u8>>),
    Seq<char>,
> {
    match r {
        Ok(ids) => Ok((opt_bytes(ids.id20), opt_bytes(ids.id32))),
        Err(text) => Err(text@),
    }
}

/// What the magnet parser makes of a text: the info hashes of the link, or
/// the parser's complaint.
pub uninterp spec fn magnet_ids(url: Seq<char>) -> Result<
    (Option<Seq<u8>>, Option<Seq<u8>>),
    Seq<char>,
>;

/// No character from `from` up to `to` is the padding sign `=`.
pub open spec fn no_padding(s: Seq<char>, from: int, to: int) -> bool {
    forall|i: int| from <= i < to && 0 <= i < s.len() ==> s[i] != '='
}

/// Every character from `from` up to `to` is the padding sign `=`.
pub open spec fn all_padding(s: Seq<char>, from: int, to: int) -> bool {
    forall|i: int| from <= i < to && 0 <= i < s.len() ==> s[i] == '='
}

/// A version 1 hash, which `value` holds from `at` on, can be read: it
/// holds no padding. (Padded, it would decode to fewer bytes than the
/// hash has.)
pub open spec fn hash_v1_safe(value: Seq<char>, at: int) -> bool {
    no_padding(value, at, value.len() as int)
}

/// A version 2 hash, which `value` holds from `at` on, can be read: if it
/// has the 56 characters of the base 32 form, the last four of them, and
/// no others, are padding. (Otherwise it would not decode to the 32 bytes
/// of the hash.)
pub open spec fn hash_v2_safe(value: Seq<char>, at: int) -> bool {
    value.len() - at != 56 || (no_padding(value, at, at + 52) && all_padding(
        value,
        at + 52,
        at + 56,
    ))
}

/// The selection ends at `pos`, or an item of it does.
pub open spec fn item_stops(value: Seq<char>, pos: int) -> bool {
    pos >= value.len() || value[pos] == ','
}

/// What follows the hyphen of a range of a file selection has at most
/// three characters, so that the range ends below a thousand.
pub open spec fn selection_safe(value: Seq<char>) -> bool {
    forall|i: int|
        0 <= i < value.len() && value[i] == '-' ==> item_stops(value, i + 1) || item_stops(
            value,
            i + 2,
        ) || item_stops(value, i + 3) || item_stops(value, i + 4)
}

/// The pair of a query can be handed to the magnet parser: an `xt` that
/// holds a hash holds one that can be read, and an `so` is a selection
/// whose ranges are short.
pub open spec fn pair_safe(key: Seq<char>, value: Seq<char>) -> bool {
    if key == "xt"@ {
        if starts_with(value, "urn:btih:"@) {
            hash_v1_safe(value, 9)
        } else if starts_with(value, "urn:btmh:1220"@) {
            hash_v2_safe(value, 13)
        } else {
            true
        }
    } else if key == "so"@ {
        selection_safe(value)
    } else {
        true
    }
}

/// Every pair of the query can be handed to the magnet parser.
pub open spec fn pairs_safe(pairs: Seq<(Seq<char>, Seq<char>)>) -> bool {
    forall|i: int| 0 <= i < pairs.len() ==> pair_safe((#[trigger] pairs[i]).0, pairs[i].1)
}

/// A text, which the URL parser read as `parsed`, can be handed to the
/// magnet parser: it is no URL, or every pair of its query can be.
pub open spec fn magnet_safe(parsed: Option<UrlParts>) -> bool {
    match parsed {
        Some(parts) => pairs_safe(parts.4),
        None => true,
    }
}

fn no_padding_in(v: &Vec<char>, from: usize, to: usize) -> (r: bool)
    requires
        from <= to <= v@.len(),
    ensures
        r == no_padding(v@, from as int, to as int),
{
    let mut i: usize = from;
    while i < to
        invariant
            from <= i <= to <= v@.len(),
            no_padding(v@, from as int, i as int),
        decreases to - i,
    {
        if v[i] == '=' {
            return false;
        }
        i = i + 1;
    }
    true
}

fn all_padding_in(v: &Vec<char>, from: usize, to: usize) -> (r: bool)
    requires
        from <= to <= v@.len(),
    ensures
        r == all_padding(v@, from as int, to as int),
{
    let mut i: usize = from;
    while i < to
        invariant
            from <= i <= to <= v@.len(),
            all_padding(v@, from as int, i as int),
        decreases to - i,
    {
        if v[i] != '=' {
            return false;
        }
        i = i + 1;
    }
    true
}

fn item_stops_at(v: &Vec<char>, pos: usize) -> (r: bool)
    ensures
        r == item_stops(v@, pos as int),
{
    pos >= v.len() || v[pos] == ','
}

fn selection_is_safe(v: &Vec<char>) -> (r: bool)
    ensures
        r == selection_safe(v@),
{
    let n: usize = v.len();
    let mut i: usize = 0;
    while i < n
        invariant
            i <= n,
            n == v@.len(),
            forall|k: int|
                0 <= k < i && v@[k] == '-' ==> item_stops(v@, k + 1) || item_stops(v@, k + 2)
                    || item_stops(v@, k + 3) || item_stops(v@, k + 4),
        decreases n - i,
    {
        if v[i] == '-' {
            let short: bool = n - i <= 4 || item_stops_at(v, i + 1) || item_stops_at(v, i + 2)
                || item_stops_at(v, i + 3) || item_stops_at(v, i + 4);
            if !short {
                return false;
            }
        }
        i = i + 1;
    }
    true
}

/// Whether the pair of a query can be handed to the magnet parser.
pub fn pair_is_safe(key: &str, value: &str) -> (r: bool)
    ensures
        r == pair_safe(key@, value@),
{
    if str_eq(key, "xt") {
        let v = chars_of(value);
        let n: usize = v.len();
        if str_starts_with(value, "urn:btih:") {
            if n < 9 {
                return true;
            }
            no_padding_in(&v, 9, n)
        } else if str_starts_with(value, "urn:btmh:1220") {
            if n < 13 || n - 13 != 56 {
                return true;
            }
            no_padding_in(&v, 13, 65) && all_padding_in(&v, 65, 69)
        } else {
            true
        }
    } else if str_eq(key, "so") {
        let v = chars_of(value);
        selection_is_safe(&v)
    } else {
        true
    }
}

/// Whether a text, which the URL parser read as `parsed`, can be handed
/// to the magnet parser.
#[verifier::loop_isolation(false)]
pub fn magnet_is_safe(parsed: &Option<ParsedUrl>) -> (r: bool)
    ensures
        r == magnet_safe(parsed_view(*parsed)),
{
    match parsed {
        None => true,
        Some(url) => {
            let ghost pairs = pairs_view(url.query@);
            let mut i: usize = 0;
            while i < url.query.len()
                invariant
                    i <= url.query@.len(),
                    pairs == pairs_view(url.query@),
                    forall|k: int| 0 <= k < i ==> pair_safe((#[trigger] pairs[k]).0, pairs[k].1),
                decreases url.query@.len() - i,
            {
                let pair = &url.query[i];
                assert(pairs[i as int] == (pair.0@, pair.1@));
                if !pair_is_safe(pair.0.as_str(), pair.1.as_str()) {
                    assert(!pair_safe(pairs[i as int].0, pairs[i as int].1));
                    return false;
                }
                i = i + 1;
            }
            true
        },
    }
}

/// Parses a magnet link.
///
/// Trusted: `librqbit::Magnet::parse` and the accessors `as_id20` and
/// `as_id32` of the link it returns; a failure is given in the words of its
/// error. The contract names the result; it claims nothing of what it is.
/// The parser reads the pairs of the text's query as the URL parser gives
/// them. It copies a hash decoded from base 32 into the bytes of the hash
/// without comparing lengths, and lays out every index of a selection
/// range; so it is called only on a text whose pairs hold neither a hash
/// whose padding makes it decode to another length nor a long range.
#[verifier::external_body]
fn parse_magnet_raw(url: &str) -> (r: Result<MagnetIds, String>)
    requires
        magnet_safe(url_parts(url@)),
    ensures
        magnet_view(r) == magnet_ids(url@),
{
    match librqbit::Magnet::parse(url) {
        Ok(m) => Ok(
            MagnetIds {
                id20: m.as_id20().map(|id| id.0.to_vec()),
                id32: m.as_id32().map(|id| id.0.to_vec()),
            },
        ),
        Err(e) => Err(format!("{e:#}")),
    }
}

/// The complaint about a magnet link that is kept from the magnet parser.
pub open spec fn unsafe_magnet_complaint() -> Seq<char> {
    "the link holds an info hash or a file selection that cannot be read"@
}

/// What is made of a magnet link, `parsed` being what the URL parser and
/// `ids` what the magnet parser makes of it: a link that cannot be handed
/// to the magnet parser is refused.
pub open spec fn magnet_guarded(
    parsed: Option<UrlParts>,
    ids: Result<(Option<Seq<u8>>, Option<Seq<u8>>), Seq<char>>,
) -> Result<(Option<Seq<u8>>, Option<Seq<u8>>), Seq<char>> {
    if magnet_safe(parsed) {
        ids
    } else {
        Err(unsafe_magnet_complaint())
    }
}

/// What is made of a magnet link.
pub open spec fn magnet_read(url: Seq<char>) -> Result<
    (Option<Seq<u8>>, Option<Seq<u8>>),
    Seq<char>,
> {
    magnet_guarded(url_parts(url), magnet_ids(url))
}

/// Parses a magnet link: its info hashes, or a complaint. A link with a
/// hash or a selection that the magnet parser cannot read is refused
/// before that parser sees it.
pub fn parse_magnet(url: &str) -> (r: Result<MagnetIds, String>)
    ensures
        magnet_view(r) == magnet_read(url@),
{
    let parsed = parse_url(url);
    if !magnet_is_safe(&parsed) {
        return Err(
            String::from_str("the link holds an info hash or a file selection that cannot be read"),
        );
    }
    parse_magnet_raw(url)
}

/// The info hash that a source URL gives away, `magnet` being what the
/// magnet parser makes of the trimmed URL.
pub open spec fn info_hash_spec(
    url: Seq<char>,
    parsed: Option<UrlParts>,
    magnet: Result<(Option<Seq<u8>>, Option<Seq<u8>>), Seq<char>>,
) -> Result<Option<Seq<char>>, MagErrorView> {
    let trimmed = trim_spec(url);
    if !torrent_like(trimmed, parsed) {
        Ok(None)
    } else if starts_with(trimmed, "magnet:"@) {
        match magnet {
            Err(text) => Err(
                MagErrorView::Generic("failed to parse magnet link "@ + trimmed + ": "@ + text),
            ),
            Ok(ids) => match ids.0 {
                Some(id20) => Ok(Some(hex_spec(id20))),
                None => match ids.1 {
                    Some(id32) => Ok(Some(hex_spec(id32))),
                    None => Err(
                        MagErrorView::Generic(
                            "magnet link "@ + trimmed + " did not contain a supported info hash"@,
                        ),
                    ),
                },
            },
        }
    } else {
        Ok(None)
    }
}

/// The info hash that the source `url` gives away: that of a magnet link,
/// the version 1 hash before the version 2 hash, in hexadecimal; nothing
/// for any other source. `parsed` and `magnet` are what the URL parser and
/// the magnet parser make of the trimmed URL.
pub fn info_hash_from_parsed(
    url: &str,
    parsed: &Option<ParsedUrl>,
    magnet: Result<MagnetIds, String>,
) -> (r: Result<Option<String>, MagError>)
    ensures
        match r {
            Ok(h) => info_hash_spec(url@, parsed_view(*parsed), magnet_view(magnet)) == Ok::<
                _,
                MagErrorView,
            >(opt_view(h)),
            Err(e) => info_hash_spec(url@, parsed_view(*parsed), magnet_view(magnet)) == Err::<
                Option<Seq<char>>,
                _,
            >(e@),
        },
{
    let trimmed = str_trim(url);
    if !is_torrent_url_parsed(trimmed.as_str(), parsed) {
        return Ok(None);
    }
    if !str_starts_with(trimmed.as_str(), "magnet:") {
        return Ok(None);
    }
    match magnet {
        Err(text) => {
            let mut message = concat3("failed to parse magnet link ", trimmed.as_str(), ": ");
            message.append(text.as_str());
            Err(MagError::Generic(message))
        },
        Ok(ids) => match ids.id20 {
            Some(id20) => Ok(Some(hex_encode(id20.as_slice()))),
            None => match ids.id32 {
                Some(id32) => Ok(Some(hex_encode(id32.as_slice()))),
                None => Err(
                    MagError::Generic(
                        concat3(
                            "magnet link ",
                            trimmed.as_str(),
                            " did not contain a supported info hash",
                        ),
                    ),
                ),
            },
        },
    }
}

/// The info hash that the source `url` gives away, if any.
pub fn info_hash_from_url(url: &str) -> (r: Result<Option<String>, MagError>)
    ensures
        match r {
            Ok(h) => info_hash_spec(
                url@,
                url_parts(trim_spec(url@)),
                magnet_read(trim_spec(url@)),
            ) == Ok::<_, MagErrorView>(opt_view(h)),
            Err(e) => info_hash_spec(
                url@,
                url_parts(trim_spec(url@)),
                magnet_read(trim_spec(url@)),
            ) == Err::<Option<Seq<char>>, _>(e@),
        },
{
    let trimmed = str_trim(url);
    let parsed = parse_url(trimmed.as_str());
    let magnet = parse_magnet(trimmed.as_str());
    info_hash_from_parsed(url, &parsed, magnet)
}

/// Whether `path` names something that is fetched over HTTP: it begins
/// with `http://` or with `https://`.
pub fn is_remote_url(path: &str) -> (r: bool)
    ensures
        r == (starts_with(path@, "http://"@) || starts_with(path@, "https://"@)),
{
    str_starts_with(path, "http://") || str_starts_with(path, "https://")
}

/// An HTTP download goes on only after a status from 200 to 299.
pub open spec fn http_status_spec(url: Seq<char>, code: u16, status: Seq<char>) -> Result<
    (),
    MagErrorView,
> {
    if 200 <= code < 300 {
        Ok(())
    } else {
        Err(MagErrorView::Generic("failed to download "@ + url + ": HTTP "@ + status))
    }
}

/// Judges the answer to an HTTP request for `url`: `code` is the status
/// code and `status` the status line as it is shown.
pub fn check_http_status(url: &str, code: u16, status: &str) -> (r: Result<(), MagError>)
    ensures
        match r {
            Ok(_) => http_status_spec(url@, code, status@) == Ok::<(), MagErrorView>(()),
            Err(e) => http_status_spec(url@, code, status@) == Err::<(), _>(e@),
        },
{
    if 200 <= code && code < 300 {
        Ok(())
    } else {
        let mut text = concat3("failed to download ", url, ": HTTP ");
        text.append(status);
        Err(MagError::Generic(text))
    }
}

/// The diagnostic for a local source that is not there.
pub fn source_not_found(url: &str) -> (e: MagError)
    ensures
        e@ == MagErrorView::Generic("fetch source not found: "@ + url@),
{
    MagError::Generic(concat2("fetch source not found: ", url))
}

} // verus!
