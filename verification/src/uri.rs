//! Request URIs, read through the `http` crate's `Uri`.
use vstd::prelude::*;

verus! {

/// Whether `http` accepts `s` as a `Uri` (`s.parse::<http::Uri>()` is `Ok`).
pub uninterp spec fn uri_parses(s: Seq<char>) -> bool;

/// `Uri::path` of the `Uri` that `http` parses from `s`.
pub uninterp spec fn uri_path_of(s: Seq<char>) -> Seq<char>;

/// How the `Uri` that `http` parses from `s` prints (`Uri`'s `Display`).
pub uninterp spec fn uri_text_of(s: Seq<char>) -> Seq<char>;

/// Whether the `Uri` that `http` parses from `s` equals the string `other`
/// (`impl PartialEq<str> for Uri`).
pub uninterp spec fn uri_equals_str(s: Seq<char>, other: Seq<char>) -> bool;

/// Calls `str::parse::<http::Uri>` and reports whether it succeeded; the
/// contract claims only that the answer is the named `uri_parses` of the text.
#[verifier::external_body]
fn http_uri_parses(s: &str) -> (r: bool)
    ensures
        r == uri_parses(s@),
{
    s.parse::<http::Uri>().is_ok()
}

/// Parses `s` with `http` and returns `http::Uri::path` of it; the contract
/// claims the result is the named `uri_path_of` of the text.
#[verifier::external_body]
fn http_uri_path(s: &str) -> (r: String)
    requires
        uri_parses(s@),
    ensures
        r@ == uri_path_of(s@),
{
    match s.parse::<http::Uri>() {
        Ok(u) => u.path().to_owned(),
        Err(_) => String::new(),
    }
}

/// Parses `s` with `http` and prints the `http::Uri` with its `Display`
/// (`to_string`); the contract claims the result is the named `uri_text_of`.
#[verifier::external_body]
fn http_uri_text(s: &str) -> (r: String)
    requires
        uri_parses(s@),
    ensures
        r@ == uri_text_of(s@),
{
    match s.parse::<http::Uri>() {
        Ok(u) => u.to_string(),
        Err(_) => String::new(),
    }
}

/// Parses `s` with `http` and compares the `http::Uri` with `other` through
/// `impl PartialEq<str> for Uri`; the contract claims the answer is the named
/// `uri_equals_str`.
#[verifier::external_body]
fn http_uri_eq_str(s: &str, other: &str) -> (r: bool)
    requires
        uri_parses(s@),
    ensures
        r == uri_equals_str(s@, other@),
{
    match s.parse::<http::Uri>() {
        Ok(u) => u == *other,
        Err(_) => false,
    }
}

/// A request URI: text that `http` accepts as a `Uri`.
pub struct Uri {
    source: String,
}

impl View for Uri {
    type V = Seq<char>;

    closed spec fn view(&self) -> Seq<char> {
        self.source@
    }
}

impl Uri {
    #[verifier::type_invariant]
    spec fn parses(self) -> bool {
        uri_parses(self.source@)
    }

    /// Reads `s` as a URI; `None` where `http` refuses it.
    pub fn parse(s: &str) -> (r: Option<Uri>)
        ensures
            r is Some <==> uri_parses(s@),
            r matches Some(u) ==> u@ == s@,
    {
        if http_uri_parses(s) {
            Some(Uri { source: crate::text::copy_str(s) })
        } else {
            None
        }
    }

    /// The text this URI was read from.
    pub fn as_str(&self) -> (r: &str)
        ensures
            r@ == self@,
    {
        self.source.as_str()
    }

    /// The path of this URI (`http::Uri::path`).
    pub fn path(&self) -> (r: String)
        ensures
            r@ == uri_path_of(self@),
    {
        proof {
            use_type_invariant(self);
        }
        http_uri_path(self.source.as_str())
    }

    /// This URI as `http` prints it.
    pub fn to_text(&self) -> (r: String)
        ensures
            r@ == uri_text_of(self@),
    {
        proof {
            use_type_invariant(self);
        }
        http_uri_text(self.source.as_str())
    }

    /// Whether this URI equals the string `other`, as `http` compares them.
    pub fn equals_str(&self, other: &str) -> (r: bool)
        ensures
            r == uri_equals_str(self@, other@),
    {
        proof {
            use_type_invariant(self);
        }
        http_uri_eq_str(self.source.as_str(), other)
    }
}

} // verus!
