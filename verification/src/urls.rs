//! Addresses on the web, taken apart.

use vstd::prelude::*;
use vstd::string::*;

use crate::text::{chars_of, opt_text, slice_text};

verus! {

/// The parts of a URL, and its normal form.
#[derive(Debug, Clone, PartialEq, Eq)]
pub struct UrlParts {
    pub text: String,
    pub scheme: String,
    pub has_host: bool,
    pub path: String,
    pub query: Option<String>,
    pub fragment: Option<String>,
    pub username: String,
    pub password: Option<String>,
}

/// The contents of [`UrlParts`].
#[verifier::ext_equal]
pub struct UrlView {
    pub text: Seq<char>,
    pub scheme: Seq<char>,
    pub has_host: bool,
    pub path: Seq<char>,
    pub query: Option<Seq<char>>,
    pub fragment: Option<Seq<char>>,
    pub username: Seq<char>,
    pub password: Option<Seq<char>>,
}

impl View for UrlParts {
    type V = UrlView;

    open spec fn view(&self) -> UrlView {
        UrlView {
            text: self.text@,
            scheme: self.scheme@,
            has_host: self.has_host,
            path: self.path@,
            query: opt_text(self.query),
            fragment: opt_text(self.fragment),
            username: self.username@,
            password: opt_text(self.password),
        }
    }
}

/// What `url::Url::parse` makes of a text: the parts of the URL, or what its error says.
pub uninterp spec fn url_parsed(s: Seq<char>) -> Result<UrlView, Seq<char>>;

/// Calls `url::Url::parse` and takes the URL apart: [`url_parsed`] of the text.
#[verifier::external_body]
pub(crate) fn parse_url(s: &str) -> (r: Result<UrlParts, String>)
    ensures
        match r {
            Ok(parts) => url_parsed(s@) matches Ok(v) && v == parts@,
            Err(error) => url_parsed(s@) matches Err(e) && e == error@,
        },
{
    let url = url::Url::parse(s).map_err(|error| error.to_string())?;
    Ok(UrlParts {
        scheme: url.scheme().to_owned(),
        has_host: url.has_host(),
        path: url.path().to_owned(),
        query: url.query().map(str::to_owned),
        fragment: url.fragment().map(str::to_owned),
        username: url.username().to_owned(),
        password: url.password().map(str::to_owned),
        text: url.into(),
    })
}

/// A text without the slashes at its end.
pub open spec fn without_end_slashes(s: Seq<char>) -> Seq<char>
    decreases s.len(),
{
    if s.len() > 0 && s.last() == '/' {
        without_end_slashes(s.drop_last())
    } else {
        s
    }
}

/// A text without the slashes at its end.
pub fn trim_end_slashes(s: &str) -> (r: String)
    ensures
        r@ == without_end_slashes(s@),
{
    let chars = chars_of(s);
    let mut to: usize = chars.len();
    assert(chars@.take(to as int) =~= s@);
    while to > 0 && chars[to - 1] == '/'
        invariant
            to <= chars@.len(),
            chars@ == s@,
            without_end_slashes(chars@.take(to as int)) == without_end_slashes(s@),
        decreases to,
    {
        assert(chars@.take(to as int).drop_last() =~= chars@.take(to - 1));
        to = to - 1;
    }
    proof {
        if to > 0 {
            assert(chars@.take(to as int).last() == chars@[to - 1]);
        }
        assert(chars@.subrange(0, to as int) =~= chars@.take(to as int));
    }
    slice_text(chars.as_slice(), 0, to)
}

} // verus!
