//! The URL shortener's rules: how a long URL is checked and hashed, how a
//! short URL is written and read back, and what each failure answers.
use vstd::prelude::*;

use crate::codec::{chars_of, decimal_of, hex_of, parse_hex_spec, parse_hex_u64, u64_to_decimal, u64_to_hex, IntErrorKind};
use crate::state_machine::{apply_writes, lemma_last_write_wins, StateMachineData};
use crate::types::{Entry, EntryPayload};
use crate::types::LongUrlEntry;

verus! {

/// The error type of `url::Url::parse`.
#[verifier::external_type_specification]
#[verifier::external_body]
pub struct ExUrlParseError(url::ParseError);

/// What `DefaultHasher` (as made by `DefaultHasher::new`) computes for a
/// string. The algorithm is fixed within one build of the program.
pub uninterp spec fn default_hash(s: Seq<char>) -> u64;

/// The serialization of the URL that `url::Url::parse` reads from a text,
/// or `None` where it finds no absolute URL.
pub uninterp spec fn url_parse(s: Seq<char>) -> Option<Seq<char>>;

/// The hash of a long URL: `t.hash(&mut DefaultHasher::new())` then
/// `finish()`, which is what `hash_one` does with a default-built hasher.
#[verifier::external_body]
pub(crate) fn calculate_hash(t: &str) -> (r: u64)
    ensures
        r == default_hash(t@),
{
    std::hash::BuildHasher::hash_one(&std::hash::BuildHasherDefault::<std::collections::hash_map::DefaultHasher>::default(), t)
}

/// `url::Url::parse`, the parsed URL handed out as its serialization
/// (`String::from(url)`).
#[verifier::external_body]
fn parse_url(s: &str) -> (r: Result<String, url::ParseError>)
    ensures
        r is Ok <==> url_parse(s@) is Some,
        r matches Ok(v) ==> url_parse(s@) == Some(v@),
{
    match url::Url::parse(s) {
        Ok(u) => Ok(String::from(u)),
        Err(e) => Err(e),
    }
}

/// `validator::ValidateUrl::validate_url` on a text, which the crate's
/// source defines as whether `url::Url::parse` accepts it.
#[verifier::external_body]
fn validator_accepts_url(s: &str) -> (r: bool)
    ensures
        r == url_parse(s@) is Some,
{
    validator::ValidateUrl::validate_url(s)
}

/// Why a request to the shortener failed.
#[derive(Debug)]
pub enum ShortenerErr {
    /// The request body is not the JSON expected.
    JsonError(serde_json::Error),
    /// The short URL is not a hexadecimal hash.
    JsonError2(IntErrorKind),
    /// The long URL is not a URL.
    UrlParseError(url::ParseError),
    /// Anything else.
    UnexpectedError,
}

/// The HTTP status of each error.
pub open spec fn status_of(e: ShortenerErr) -> u16 {
    match e {
        ShortenerErr::JsonError(_) => 400,
        ShortenerErr::JsonError2(_) => 422,
        ShortenerErr::UrlParseError(_) => 422,
        ShortenerErr::UnexpectedError => 500,
    }
}

/// The text an error shows.
pub open spec fn message_of(e: ShortenerErr) -> Seq<char> {
    match e {
        ShortenerErr::JsonError(_) => "Failed to parse JSON"@,
        ShortenerErr::JsonError2(_) => "Failed to parse JSON"@,
        ShortenerErr::UrlParseError(_) => "Failed to parse URL"@,
        ShortenerErr::UnexpectedError => "An unexpected error occurred"@,
    }
}

impl ShortenerErr {
    /// The HTTP status the error answers: bad request for a body that is no
    /// JSON, unprocessable for a bad hash or URL, internal error otherwise.
    pub fn status_code(&self) -> (r: u16)
        ensures
            r == status_of(*self),
    {
        match self {
            ShortenerErr::JsonError(_) => 400,
            ShortenerErr::JsonError2(_) => 422,
            ShortenerErr::UrlParseError(_) => 422,
            ShortenerErr::UnexpectedError => 500,
        }
    }

    /// The text of the error, the body of the answer.
    pub fn message(&self) -> (r: String)
        ensures
            r@ == message_of(*self),
    {
        match self {
            ShortenerErr::JsonError(_) => String::from_str("Failed to parse JSON"),
            ShortenerErr::JsonError2(_) => String::from_str("Failed to parse JSON"),
            ShortenerErr::UrlParseError(_) => String::from_str("Failed to parse URL"),
            ShortenerErr::UnexpectedError => String::from_str("An unexpected error occurred"),
        }
    }
}

/// Whether `s` starts with `p`.
pub fn starts_with(s: &str, p: &str) -> (r: bool)
    ensures
        r == (p@.len() <= s@.len() && s@.subrange(0, p@.len() as int) == p@),
{
    let cs = chars_of(s);
    let cp = chars_of(p);
    if cp.len() > cs.len() {
        return false;
    }
    let mut i: usize = 0;
    while i < cp.len()
        invariant
            i <= cp@.len() <= cs@.len(),
            cs@ == s@,
            cp@ == p@,
            forall|j: int| 0 <= j < i ==> cs@[j] == cp@[j],
        decreases cp@.len() - i,
    {
        if cs[i] != cp[i] {
            assert(s@.subrange(0, p@.len() as int)[i as int] != p@[i as int]);
            return false;
        }
        i = i + 1;
    }
    assert(s@.subrange(0, p@.len() as int) =~= p@);
    true
}

/// The absolute form of a URL: as given when it names `http://` or
/// `https://`, otherwise with `https://` in front.
pub open spec fn absolute_url(u: Seq<char>) -> Seq<char> {
    let http = "http://"@;
    let https = "https://"@;
    if (http.len() <= u.len() && u.subrange(0, http.len() as int) == http)
        || (https.len() <= u.len() && u.subrange(0, https.len() as int) == https) {
        u
    } else {
        https + u
    }
}

/// Only a text that starts with `http://` or `https://` is taken as it is;
/// every other text, a colon in it or not, gets `https://` in front.
pub proof fn lemma_https_put_in_front(u: Seq<char>)
    ensures
        ("http://"@.is_prefix_of(u) || "https://"@.is_prefix_of(u)) ==> absolute_url(u) == u,
        !("http://"@.is_prefix_of(u) || "https://"@.is_prefix_of(u)) ==> absolute_url(u) == "https://"@ + u,
        "https://"@.is_prefix_of(absolute_url(u)) || "http://"@.is_prefix_of(absolute_url(u)),
{
    reveal_strlit("http://");
    reveal_strlit("https://");
    if !("http://"@.is_prefix_of(u) || "https://"@.is_prefix_of(u)) {
        assert(("https://"@ + u).subrange(0, 8) =~= "https://"@);
    }
}

/// Checks a long URL, after putting `https://` in front when it names no
/// scheme, and gives the URL's serialization.
pub fn validate_url(u: &str) -> (r: Result<String, ShortenerErr>)
    ensures
        r is Ok <==> url_parse(absolute_url(u@)) is Some,
        r matches Ok(v) ==> url_parse(absolute_url(u@)) == Some(v@),
        r matches Err(e) ==> e is UrlParseError,
        !("http://"@.is_prefix_of(u@) || "https://"@.is_prefix_of(u@)) ==> {
            &&& (r is Ok <==> url_parse("https://"@ + u@) is Some)
            &&& (r matches Ok(v) ==> url_parse("https://"@ + u@) == Some(v@))
        },
        ("http://"@.is_prefix_of(u@) || "https://"@.is_prefix_of(u@)) ==> {
            &&& (r is Ok <==> url_parse(u@) is Some)
            &&& (r matches Ok(v) ==> url_parse(u@) == Some(v@))
        },
{
    proof {
        lemma_https_put_in_front(u@);
    }
    let abs = if !starts_with(u, "http://") && !starts_with(u, "https://") {
        let mut s = String::from_str("https://");
        s.append(u);
        s
    } else {
        String::from_str(u)
    };
    proof {
        reveal_strlit("http://");
        reveal_strlit("https://");
    }
    assert(abs@ == absolute_url(u@));
    match parse_url(abs.as_str()) {
        Ok(v) => Ok(v),
        Err(e) => Err(ShortenerErr::UrlParseError(e)),
    }
}

/// What creating a short URL keeps: the hash of the long URL, the URL
/// stored, and the short URL answered.
#[derive(Clone, Debug)]
pub struct ShortUrl {
    pub hash: u64,
    pub url: String,
    pub short_url: String,
}

/// Creates a short URL for the given hash and checked URL: the short URL is
/// the hash in lowercase hexadecimal.
pub fn short_url_for(hash: u64, url: String) -> (r: ShortUrl)
    ensures
        r.hash == hash,
        r.url == url,
        r.short_url@ == hex_of(hash as nat),
{
    ShortUrl { hash, url, short_url: u64_to_hex(hash) }
}

/// Creates a short URL as the single-node service does: checks the long
/// URL and hashes it as given.
pub fn create_short_url(long_url: &str) -> (r: Result<ShortUrl, ShortenerErr>)
    ensures
        r is Ok <==> url_parse(absolute_url(long_url@)) is Some,
        r matches Ok(s) ==> {
            &&& url_parse(absolute_url(long_url@)) == Some(s.url@)
            &&& s.hash == default_hash(long_url@)
            &&& s.short_url@ == hex_of(s.hash as nat)
        },
        r matches Err(e) ==> e is UrlParseError,
        !("http://"@.is_prefix_of(long_url@) || "https://"@.is_prefix_of(long_url@)) ==> {
            &&& (r is Ok <==> url_parse("https://"@ + long_url@) is Some)
            &&& (r matches Ok(s) ==> url_parse("https://"@ + long_url@) == Some(s.url@))
        },
{
    proof {
        lemma_https_put_in_front(long_url@);
    }
    match validate_url(long_url) {
        Ok(url) => {
            let hash = calculate_hash(long_url);
            Ok(short_url_for(hash, url))
        },
        Err(e) => Err(e),
    }
}

/// Why the replicated service refused to create a short URL.
#[derive(Clone, Copy, Debug, PartialEq, Eq, Structural)]
pub enum CreateRejection {
    /// The long URL is not a URL.
    InvalidUrl,
}

/// What the replicated service writes for a long URL, given its hash and
/// whether it is a URL: the log entry keyed by the hash, created in Raft
/// term `term`, and the short URL to answer.
pub fn plan_entry(long_url: &str, hash: u64, url_is_valid: bool, term: u64) -> (r: Result<(LongUrlEntry, ShortUrl), CreateRejection>)
    ensures
        r is Ok <==> url_is_valid,
        r matches Ok((e, s)) ==> {
            &&& e.hash@ == decimal_of(hash as nat)
            &&& e.url@ == long_url@
            &&& e.term == term
            &&& s.hash == hash
            &&& s.url@ == long_url@
            &&& s.short_url@ == hex_of(hash as nat)
        },
        r matches Err(e) ==> e == CreateRejection::InvalidUrl,
{
    if !url_is_valid {
        return Err(CreateRejection::InvalidUrl);
    }
    let url = String::from_str(long_url);
    let entry = LongUrlEntry::new(hash, String::from_str(long_url), term);
    Ok((entry, short_url_for(hash, url)))
}

/// What the replicated service writes for a long URL in Raft term `term`:
/// its hash, and the validator's check of the URL, decide.
pub fn prepare_entry(long_url: &str, term: u64) -> (r: Result<(LongUrlEntry, ShortUrl), CreateRejection>)
    ensures
        r is Ok <==> url_parse(long_url@) is Some,
        r matches Ok((e, s)) ==> {
            &&& s.hash == default_hash(long_url@)
            &&& e.hash@ == decimal_of(s.hash as nat)
            &&& e.url@ == long_url@
            &&& e.term == term
            &&& s.url@ == long_url@
            &&& s.short_url@ == hex_of(s.hash as nat)
        },
        r matches Err(e) ==> e == CreateRejection::InvalidUrl,
{
    let hash = calculate_hash(long_url);
    let valid = validator_accepts_url(long_url);
    plan_entry(long_url, hash, valid, term)
}

/// What reading a short URL finds.
#[derive(Clone, Debug)]
pub enum LookupOutcome {
    /// The long URL stored under the hash.
    Found(String),
    /// Nothing is stored under the hash.
    NotFound,
    /// The short URL is not a hexadecimal hash.
    BadHash(IntErrorKind),
}

/// What reading the short URL `short` finds in the stored map `m`: the
/// short URL is read as a hexadecimal hash, whose decimal text is the key.
pub open spec fn lookup_spec(m: Map<Seq<char>, Seq<char>>, short: Seq<char>) -> Option<Result<Seq<char>, IntErrorKind>> {
    match parse_hex_spec(short) {
        Err(k) => Some(Err(k)),
        Ok(h) => if m.contains_key(decimal_of(h as nat)) {
            Some(Ok(m[decimal_of(h as nat)]))
        } else {
            None
        },
    }
}

/// Reads a short URL in the state machine: recent writes first, then the
/// history.
pub fn lookup_url(sm: &StateMachineData, short: &str) -> (r: LookupOutcome)
    ensures
        match (r, lookup_spec(sm.visible(), short@)) {
            (LookupOutcome::Found(u), Some(Ok(v))) => u@ == v,
            (LookupOutcome::NotFound, None) => true,
            (LookupOutcome::BadHash(k), Some(Err(j))) => k == j,
            _ => false,
        },
{
    match parse_hex_u64(short) {
        Err(k) => LookupOutcome::BadHash(k),
        Ok(h) => {
            let key = u64_to_decimal(h);
            match sm.lookup(key.as_str()) {
                Some(u) => LookupOutcome::Found(u),
                None => LookupOutcome::NotFound,
            }
        },
    }
}

/// The hash a short URL names, as a redirect reads it.
pub fn redirect_hash(short: &str) -> (r: Result<u64, IntErrorKind>)
    ensures
        r == parse_hex_spec(short@),
{
    parse_hex_u64(short)
}

/// The short URL depends on the long URL alone: equal long URLs, hashed in
/// any call, thread or process of one build, get the same hash and so the
/// same short URL, as `create_short_url` and `prepare_entry` state them.
pub proof fn lemma_short_url_depends_on_url_alone(a: Seq<char>, b: Seq<char>)
    requires
        a == b,
    ensures
        default_hash(a) == default_hash(b),
        hex_of(default_hash(a) as nat) == hex_of(default_hash(b) as nat),
{
}

/// A short URL finds the long URL it was made for: once the entry made for
/// a hash is the last write under its key, reading the short URL of that
/// hash finds the entry's URL.
pub proof fn lemma_short_url_finds_long_url(m: Map<Seq<char>, Seq<char>>, hash: u64, url: Seq<char>)
    requires
        m.contains_key(decimal_of(hash as nat)),
        m[decimal_of(hash as nat)] == url,
    ensures
        lookup_spec(m, hex_of(hash as nat)) == Some(Ok::<Seq<char>, IntErrorKind>(url)),
{
    crate::codec::lemma_hex_round_trip(hash);
}


/// A read of a short URL gives back the write that made it: once a batch
/// of entries has been applied in which the entry for hash `hash` (keyed by
/// its decimal text) is the last to write under that key, reading the
/// short URL of `hash` finds that entry's URL.
pub proof fn lemma_created_url_is_found(
    sm: StateMachineData,
    before: Map<Seq<char>, Seq<char>>,
    entries: Seq<Entry>,
    i: int,
    hash: u64,
)
    requires
        sm.new_writes_kvs@ == apply_writes(before, entries),
        0 <= i < entries.len(),
        entries[i].payload is Normal,
        entries[i].payload->Normal_0.hash@ == decimal_of(hash as nat),
        forall|j: int| i < j < entries.len() ==> (#[trigger] entries[j].payload matches EntryPayload::Normal(e)
            ==> e.hash@ != entries[i].payload->Normal_0.hash@),
    ensures
        lookup_spec(sm.visible(), hex_of(hash as nat)) == Some(Ok::<Seq<char>, IntErrorKind>(entries[i].payload->Normal_0.url@)),
{
    lemma_last_write_wins(before, entries, i);
    lemma_short_url_finds_long_url(sm.visible(), hash, entries[i].payload->Normal_0.url@);
}

} // verus!
