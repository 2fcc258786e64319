//! What a fetch yields: a page, or the reason why there is none.

use vstd::prelude::*;

use crate::config;
use crate::config::Config;
use crate::text;
use crate::text::push_decimal;

verus! {

broadcast use vstd::string::group_string_axioms;

/// The real pages are around 100 KB. Anything far beyond that is not the page
/// that is wanted, and keeping it unbounded is how a small machine dies.
pub const MAX_BODY_BYTES: usize = 2 * 1024 * 1024;

#[derive(Debug, Clone, PartialEq, Eq)]
pub enum FetchError {
    /// 403 / 429: probably rate-limited or blocked, which means blind.
    Blocked(u16),
    Http(u16),
    Network(String),
    Io(String),
    /// The response is larger than this many bytes.
    TooLarge(usize),
}

/// Why a fetch failed, in words.
pub open spec fn failure_text(e: FetchError) -> Seq<char> {
    match e {
        FetchError::Blocked(status) => "blocked by the site (HTTP "@ + text::decimal(status as nat)
            + ")"@,
        FetchError::Http(status) => "HTTP "@ + text::decimal(status as nat),
        FetchError::Network(cause) => "network error: "@ + cause@,
        FetchError::Io(cause) => "fixture read error: "@ + cause@,
        FetchError::TooLarge(max) => "response larger than "@ + text::decimal(max as nat)
            + " bytes"@,
    }
}

impl FetchError {
    /// Whether the site turned the fetch away.
    pub fn is_blocked(&self) -> (r: bool)
        ensures
            r == (self is Blocked),
    {
        match self {
            FetchError::Blocked(_) => true,
            _ => false,
        }
    }

    /// The failure in words.
    pub fn message(&self) -> (r: String)
        ensures
            r@ == failure_text(*self),
    {
        match self {
            FetchError::Blocked(status) => {
                let mut out = "blocked by the site (HTTP ".to_string();
                push_decimal(&mut out, *status as u128);
                out.append(")");
                out
            },
            FetchError::Http(status) => {
                let mut out = "HTTP ".to_string();
                push_decimal(&mut out, *status as u128);
                out
            },
            FetchError::Network(cause) => {
                let mut out = "network error: ".to_string();
                out.append(cause);
                out
            },
            FetchError::Io(cause) => {
                let mut out = "fixture read error: ".to_string();
                out.append(cause);
                out
            },
            FetchError::TooLarge(max) => {
                let mut out = "response larger than ".to_string();
                push_decimal(&mut out, *max as u128);
                out.append(" bytes");
                out
            },
        }
    }
}

// ---------------------------------------------------------------------------
// Where the page comes from
// ---------------------------------------------------------------------------

/// Where a page is read from.
#[derive(Debug, Clone, PartialEq, Eq)]
pub enum PageSource {
    /// A local file: rehearsal mode, so that the alert path can be exercised on
    /// demand.
    Fixture(String),
    /// The site.
    Site(String),
}

/// Where a page is read from.
pub enum Origin {
    Fixture(Seq<char>),
    Site(Seq<char>),
}

impl View for PageSource {
    type V = Origin;

    open spec fn view(&self) -> Origin {
        match self {
            PageSource::Fixture(path) => Origin::Fixture(path@),
            PageSource::Site(url) => Origin::Site(url@),
        }
    }
}

/// Where a configuration has pages read from. A fixture bypasses the network.
pub open spec fn origin(settings: config::Settings) -> Origin {
    match settings.fixture_path {
        Some(path) => Origin::Fixture(path),
        None => Origin::Site(settings.target_url),
    }
}

/// Decide where to read the page from.
pub fn page_source(cfg: &Config) -> (r: PageSource)
    ensures
        r@ == origin(cfg@),
{
    match &cfg.fixture_path {
        Some(path) => PageSource::Fixture(path.clone()),
        None => PageSource::Site(cfg.target_url.clone()),
    }
}

// ---------------------------------------------------------------------------
// The response
// ---------------------------------------------------------------------------

/// What a status says of a response: whether the site turns us away, and
/// whether there is a page in it.
pub open spec fn status_verdict(status: u16) -> Result<(), FetchError> {
    if status == 403 || status == 429 {
        Err(FetchError::Blocked(status))
    } else if 200 <= status <= 299 {
        Ok(())
    } else {
        Err(FetchError::Http(status))
    }
}

/// Judge a response by its status.
pub fn check_status(status: u16) -> (r: Result<(), FetchError>)
    ensures
        r == status_verdict(status),
{
    if status == 403 || status == 429 {
        return Err(FetchError::Blocked(status));
    }
    if status < 200 || status > 299 {
        return Err(FetchError::Http(status));
    }
    Ok(())
}

/// The text that bytes are decoded to, with whatever is not UTF-8 replaced.
pub uninterp spec fn decoded(bytes: Seq<u8>) -> Seq<char>;

/// `String::from_utf8_lossy`. The text depends on the bytes alone, and bytes
/// that are UTF-8 are decoded as such.
#[verifier::external_body]
fn decode_lossy(bytes: &Vec<u8>) -> (r: String)
    ensures
        r@ == decoded(bytes@),
        vstd::utf8::valid_utf8(bytes@) ==> r@ == vstd::utf8::decode_utf8(bytes@),
{
    String::from_utf8_lossy(bytes).into_owned()
}

/// Whether a response announces more than is taken in.
pub open spec fn announces_too_much(content_length: Option<u64>) -> bool {
    content_length matches Some(n) && n > MAX_BODY_BYTES
}

/// A body with one more chunk, unless it would be too large.
pub open spec fn grown(body: Seq<u8>, chunk: Seq<u8>) -> Option<Seq<u8>> {
    if body.len() + chunk.len() <= MAX_BODY_BYTES {
        Some(body + chunk)
    } else {
        None
    }
}

/// A response body as it comes in, never larger than `MAX_BODY_BYTES`.
///
/// Its view is the bytes received so far.
#[derive(Debug)]
pub struct Body {
    bytes: Vec<u8>,
}

impl View for Body {
    type V = Seq<u8>;

    closed spec fn view(&self) -> Seq<u8> {
        self.bytes@
    }
}

impl Body {
    #[verifier::type_invariant]
    spec fn within_bounds(&self) -> bool {
        self.bytes@.len() <= MAX_BODY_BYTES
    }

    /// An empty body for a response that announces `content_length` bytes, if
    /// it announces any. One that announces too many is refused before a byte
    /// of it is read.
    pub fn announced(content_length: Option<u64>) -> (r: Result<Body, FetchError>)
        ensures
            match r {
                Ok(body) => body@ == Seq::<u8>::empty() && !(content_length matches Some(n) && n
                    > MAX_BODY_BYTES),
                Err(e) => e == FetchError::TooLarge(MAX_BODY_BYTES) && (content_length matches Some(
                    n,
                ) && n > MAX_BODY_BYTES),
            },
            r is Err <==> announces_too_much(content_length),
    {
        if let Some(n) = content_length {
            if n > MAX_BODY_BYTES as u64 {
                return Err(FetchError::TooLarge(MAX_BODY_BYTES));
            }
        }
        Ok(Body { bytes: Vec::new() })
    }

    /// Take in the next chunk. One that would make the body too large is
    /// refused, and the body stays as it was.
    pub fn receive(&mut self, chunk: &[u8]) -> (r: Result<(), FetchError>)
        ensures
            match r {
                Ok(()) => old(self)@.len() + chunk@.len() <= MAX_BODY_BYTES && final(self)@ == old(
                    self,
                )@ + chunk@,
                Err(e) => old(self)@.len() + chunk@.len() > MAX_BODY_BYTES && final(self)@ == old(
                    self,
                )@ && e == FetchError::TooLarge(MAX_BODY_BYTES),
            },
            final(self)@.len() <= MAX_BODY_BYTES,
            match grown(old(self)@, chunk@) {
                Some(body) => r is Ok && final(self)@ == body,
                None => r is Err && final(self)@ == old(self)@,
            },
    {
        proof {
            use_type_invariant(&*self);
        }
        let room = MAX_BODY_BYTES - self.bytes.len();
        if chunk.len() > room {
            return Err(FetchError::TooLarge(MAX_BODY_BYTES));
        }
        let mut bytes: Vec<u8> = Vec::new();
        std::mem::swap(&mut bytes, &mut self.bytes);
        bytes.extend_from_slice(chunk);
        self.bytes = bytes;
        Ok(())
    }

    /// The page that the body holds. The site serves UTF-8; a lossy decoding
    /// will do for a page that is only scanned for a sentence.
    pub fn into_text(self) -> (r: String)
        ensures
            r@ == decoded(self@),
            vstd::utf8::valid_utf8(self@) ==> r@ == vstd::utf8::decode_utf8(self@),
    {
        decode_lossy(&self.bytes)
    }
}

/// All bytes of the chunks, one after the other.
pub open spec fn all_bytes(chunks: Seq<Seq<u8>>) -> Seq<u8>
    decreases chunks.len(),
{
    if chunks.len() == 0 {
        Seq::empty()
    } else {
        all_bytes(chunks.drop_last()) + chunks.last()
    }
}

/// The body after the chunks have come in one by one, unless one of them was
/// refused.
pub open spec fn received(chunks: Seq<Seq<u8>>) -> Option<Seq<u8>>
    decreases chunks.len(),
{
    if chunks.len() == 0 {
        Some(Seq::empty())
    } else {
        match received(chunks.drop_last()) {
            Some(body) => grown(body, chunks.last()),
            None => None,
        }
    }
}

/// However a body is cut into chunks, it is received as a whole if it is not
/// too large, and refused if it is.
pub proof fn law_a_body_is_refused_iff_it_is_too_large(chunks: Seq<Seq<u8>>)
    ensures
        received(chunks) == (if all_bytes(chunks).len() <= MAX_BODY_BYTES {
            Some(all_bytes(chunks))
        } else {
            None
        }),
    decreases chunks.len(),
{
    if chunks.len() > 0 {
        law_a_body_is_refused_iff_it_is_too_large(chunks.drop_last());
    }
}

/// The site turns us away if and only if it answers 403 or 429, and there is a
/// page if and only if the status says success.
pub proof fn law_only_two_statuses_block(status: u16)
    ensures
        status_verdict(status) matches Err(FetchError::Blocked(s)) ==> s == status,
        status_verdict(status) matches Err(e) && e is Blocked <==> status == 403 || status == 429,
        status_verdict(status) is Ok <==> 200 <= status <= 299,
        status_verdict(status) is Err && status != 403 && status != 429 ==> status_verdict(status)
            == Err::<(), FetchError>(FetchError::Http(status)),
{
}

/// A chunk is taken in whole or not at all, and it is taken in if and only if the
/// body does not grow beyond two mebibytes.
pub proof fn law_a_body_grows_to_two_mebibytes(body: Seq<u8>, chunk: Seq<u8>)
    ensures
        body.len() + chunk.len() <= 2_097_152 ==> grown(body, chunk) == Some(body + chunk),
        body.len() + chunk.len() > 2_097_152 ==> grown(body, chunk) is None,
{
}

/// A response is refused for what it announces if and only if that is more than
/// two mebibytes; one that announces nothing is given a chance.
pub proof fn law_only_too_much_is_refused_beforehand(content_length: Option<u64>)
    ensures
        announces_too_much(content_length) <==> (content_length matches Some(n) && n > 2_097_152),
        MAX_BODY_BYTES == 2_097_152,
{
}

/// Each failure in words.
pub proof fn law_each_failure_reads_as_it_should(status: u16, cause: String, max: usize)
    ensures
        failure_text(FetchError::Blocked(status)) == "blocked by the site (HTTP "@ + text::decimal(
            status as nat,
        ) + ")"@,
        failure_text(FetchError::Http(status)) == "HTTP "@ + text::decimal(status as nat),
        failure_text(FetchError::Network(cause)) == "network error: "@ + cause@,
        failure_text(FetchError::Io(cause)) == "fixture read error: "@ + cause@,
        failure_text(FetchError::TooLarge(max)) == "response larger than "@ + text::decimal(
            max as nat,
        ) + " bytes"@,
{
}

/// A fixture is read if and only if there is one; else the page that is watched.
pub proof fn law_a_fixture_goes_before_the_site(settings: config::Settings)
    ensures
        settings.fixture_path matches Some(path) ==> origin(settings) == Origin::Fixture(path),
        settings.fixture_path is None ==> origin(settings) == Origin::Site(settings.target_url),
{
}

/// What a source says is what it holds.
pub proof fn law_sources_say_what_they_hold(s: String)
    ensures
        PageSource::Fixture(s)@ == Origin::Fixture(s@),
        PageSource::Site(s)@ == Origin::Site(s@),
{
}

}
