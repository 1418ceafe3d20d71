//! Parsing of the stored cookie-jar file format: a header line
//! followed by one cookie per line, each a list of attributes.
//!
//! Reading the file and handing the normalised cookies to the cookie
//! store stay at the edge; the line and attribute handling is here.

use vstd::prelude::*;

use crate::strutil::has_prefix;
use crate::strutil::is_space;
use crate::strutil::lowercase_ascii;
use crate::strutil::push_char;
use crate::strutil::replace_char;
use crate::strutil::split_all;
use crate::strutil::split_at_first;
use crate::strutil::split_once_at;
use crate::strutil::split_seq;
use crate::strutil::str_eq;
use crate::strutil::strip_prefix_str;
use crate::strutil::trim_by;
use crate::strutil::trim_char;
use crate::strutil::trim_spaces;

verus! {

/// One attribute of a cookie line: a key, and a value when the
/// attribute carries one.
#[derive(Debug)]
pub struct CookieAttribute {
    pub key: String,
    pub value: Option<String>,
}

/// Mathematical content of a [`CookieAttribute`].
pub struct CookieAttributeView {
    pub key: Seq<char>,
    pub value: Option<Seq<char>>,
}

impl View for CookieAttribute {
    type V = CookieAttributeView;

    open spec fn view(&self) -> CookieAttributeView {
        (CookieAttributeView { key: self.key@, value: self.value.deep_view() })
    }
}

impl DeepView for CookieAttribute {
    type V = CookieAttributeView;

    open spec fn deep_view(&self) -> CookieAttributeView {
        self.view()
    }
}

/// Whether a line opens a stored cookie jar.
pub open spec fn jar_header(line: Seq<char>) -> bool {
    has_prefix(line, "#LWP-Cookies-"@)
}

/// Checks the cookie-jar header line.
pub fn is_jar_header(line: &str) -> (r: bool)
    ensures
        r == jar_header(line@),
{
    crate::strutil::starts_with_str(line, "#LWP-Cookies-")
}

/// The cookie text of a jar line: what follows the line marker, or
/// nothing for any other line.
pub open spec fn cookie_line_of(line: Seq<char>) -> Option<Seq<char>> {
    if has_prefix(line, "Set-Cookie3: "@) {
        Some(line.subrange("Set-Cookie3: "@.len() as int, line.len() as int))
    } else {
        None
    }
}

/// Strips the line marker off a jar line.
pub fn cookie_line(line: &str) -> (r: Option<String>)
    ensures
        r.deep_view() == cookie_line_of(line@),
{
    strip_prefix_str(line, "Set-Cookie3: ")
}

/// The attribute one raw segment yields: split at the first equals
/// sign, the key trimmed; a valued attribute's value is trimmed and
/// stripped of surrounding quotes.
pub open spec fn attribute_of(seg: Seq<char>) -> CookieAttributeView {
    match split_at_first(seg, '=') {
        None => CookieAttributeView {
            key: trim_by(seg, |c: char| is_space(c)),
            value: None,
        },
        Some(parts) => CookieAttributeView {
            key: trim_by(parts.0, |c: char| is_space(c)),
            value: Some(
                trim_by(trim_by(parts.1, |c: char| is_space(c)), |c: char| c == '"'),
            ),
        },
    }
}

/// The attributes of a cookie line: one per semicolon-separated
/// segment.
pub open spec fn attributes_of(line: Seq<char>) -> Seq<CookieAttributeView> {
    split_seq(line, ';').map_values(|seg: Seq<char>| attribute_of(seg))
}

/// Splits a cookie line into its attributes.
pub fn cookie_attributes(line: &str) -> (r: Vec<CookieAttribute>)
    ensures
        r.deep_view() == attributes_of(line@),
{
    let segments = split_all(line, ';');
    let mut r: Vec<CookieAttribute> = Vec::new();
    let mut i: usize = 0;
    while i < segments.len()
        invariant
            0 <= i <= segments@.len(),
            segments.deep_view() == split_seq(line@, ';'),
            r.deep_view().len() == i,
            forall|j: int|
                0 <= j < i ==> #[trigger] r.deep_view()[j] == attribute_of(
                    segments.deep_view()[j],
                ),
        decreases segments@.len() - i,
    {
        let seg = &segments[i];
        proof {
            assert(segments.deep_view()[i as int] == segments@[i as int]@);
        }
        let attr = match split_once_at(seg.as_str(), '=') {
            None => CookieAttribute { key: trim_spaces(seg.as_str()), value: None },
            Some((k, v)) => {
                let trimmed = trim_spaces(v.as_str());
                CookieAttribute {
                    key: trim_spaces(k.as_str()),
                    value: Some(trim_char(trimmed.as_str(), '"')),
                }
            },
        };
        let ghost vec_before = r@;
        let ghost deep_before = r.deep_view();
        proof {
            assert(attr@ == attribute_of(segments.deep_view()[i as int]));
        }
        r.push(attr);
        proof {
            assert forall|j: int| 0 <= j < i + 1 implies #[trigger] r.deep_view()[j]
                == attribute_of(segments.deep_view()[j]) by {
                assert(r.deep_view()[j] == r@[j].deep_view());
                if j < i {
                    assert(r@[j] == vec_before[j]);
                    assert(deep_before[j] == vec_before[j].deep_view());
                }
            }
        }
        i = i + 1;
    }
    proof {
        assert forall|j: int| 0 <= j < attributes_of(line@).len() implies r.deep_view()[j]
            == attributes_of(line@)[j] by {}
        assert(r.deep_view() =~= attributes_of(line@));
    }
    r
}

/// The line the attributes are rejoined into: `key=value` for valued
/// attributes, the bare key otherwise, separated by semicolons.
pub open spec fn rejoined_prefix(attrs: Seq<CookieAttributeView>, n: int) -> Seq<char>
    decreases n,
{
    if n <= 0 {
        Seq::empty()
    } else {
        let prev = rejoined_prefix(attrs, n - 1);
        let part = (match attrs[n - 1].value {
            Some(v) => attrs[n - 1].key + ";"@.take(0).push('=') + v,
            None => attrs[n - 1].key,
        });
        if n == 1 {
            part
        } else {
            prev.push(';') + part
        }
    }
}

/// Rejoins attributes into a normalised cookie line.
pub fn rejoin_attributes(attrs: &Vec<CookieAttribute>) -> (r: String)
    ensures
        r@ == rejoined_prefix(attrs.deep_view(), attrs.deep_view().len() as int),
{
    let mut r = String::new();
    let mut i: usize = 0;
    proof {
        assert(r@ =~= rejoined_prefix(attrs.deep_view(), 0));
    }
    while i < attrs.len()
        invariant
            0 <= i <= attrs@.len(),
            attrs.deep_view().len() == attrs@.len(),
            r@ == rejoined_prefix(attrs.deep_view(), i as int),
        decreases attrs@.len() - i,
    {
        let attr = &attrs[i];
        proof {
            assert(attrs.deep_view()[i as int] == attrs@[i as int]@);
        }
        if i > 0 {
            push_char(&mut r, ';');
        }
        r.append(attr.key.as_str());
        match &attr.value {
            Some(v) => {
                push_char(&mut r, '=');
                r.append(v.as_str());
                proof {
                    assert(r@ =~= rejoined_prefix(attrs.deep_view(), i + 1));
                }
            },
            None => {
                proof {
                    assert(r@ =~= rejoined_prefix(attrs.deep_view(), i + 1));
                }
            },
        }
        i = i + 1;
    }
    r
}

/// The expiry text of a cookie: the value of the first attribute whose
/// key, lowered, is the expiry key, with spaces turned into the time
/// separator so a timestamp parser can read it.
pub open spec fn expires_of(attrs: Seq<CookieAttributeView>) -> Option<Seq<char>>
    decreases attrs.len(),
{
    if attrs.len() == 0 {
        None
    } else if attrs[0].key.map_values(|c: char| crate::codes::lower_char(c)) == "expires"@
        && attrs[0].value is Some {
        Some(attrs[0].value->0.map_values(|c: char| if c == ' ' { 'T' } else { c }))
    } else {
        expires_of(attrs.drop_first(), )
    }
}

/// Finds the expiry text among a cookie's attributes.
pub fn find_expires(attrs: &Vec<CookieAttribute>) -> (r: Option<String>)
    ensures
        r.deep_view() == expires_of(attrs.deep_view()),
{
    let mut i: usize = 0;
    proof {
        assert(attrs.deep_view().skip(0) =~= attrs.deep_view());
    }
    while i < attrs.len()
        invariant
            0 <= i <= attrs@.len(),
            expires_of(attrs.deep_view()) == expires_of(attrs.deep_view().skip(i as int)),
        decreases attrs@.len() - i,
    {
        let attr = &attrs[i];
        proof {
            assert(attrs.deep_view().skip(i as int)[0] == attrs@[i as int]@);
            assert(attrs.deep_view().skip(i as int).drop_first() =~= attrs.deep_view().skip(
                i + 1,
            ));
        }
        let lowered = lowercase_ascii(attr.key.as_str());
        if str_eq(lowered.as_str(), "expires") {
            match &attr.value {
                Some(v) => {
                    return Some(replace_char(v.as_str(), ' ', 'T'));
                },
                None => {},
            }
        }
        i = i + 1;
    }
    proof {
        assert(attrs.deep_view().skip(attrs@.len() as int) =~= Seq::<
            CookieAttributeView,
        >::empty());
    }
    None
}

/// A cookie without a domain cannot be placed: no URL can be derived
/// for it.
#[derive(Debug, PartialEq, Eq, Structural)]
pub struct UnspecifiedDomain {}

/// The URL a stored cookie belongs to: the scheme follows the secure
/// flag, the host is the cookie's domain, and the path defaults to the
/// root.
pub open spec fn cookie_url_of(
    secure: Option<bool>,
    domain: Option<Seq<char>>,
    path: Option<Seq<char>>,
) -> Result<Seq<char>, UnspecifiedDomain> {
    match domain {
        None => Err(UnspecifiedDomain {}),
        Some(d) => Ok(
            (if secure == Some(true) {
                "https"@
            } else {
                "http"@
            }) + "://"@ + d + (match path {
                Some(p) => p,
                None => "/"@,
            }),
        ),
    }
}

/// Builds the URL text a stored cookie belongs to.
pub fn cookie_url(secure: Option<bool>, domain: Option<&String>, path: Option<&String>) -> (r:
    Result<String, UnspecifiedDomain>)
    ensures
        match (r, cookie_url_of(
            secure,
            match domain {
                Some(d) => Some(d@),
                None => None,
            },
            match path {
                Some(p) => Some(p@),
                None => None,
            },
        )) {
            (Ok(got), Ok(want)) => got@ == want,
            (Err(e1), Err(e2)) => e1 == e2,
            _ => false,
        },
{
    let d = match domain {
        Some(d) => d,
        None => {
            return Err(UnspecifiedDomain {});
        },
    };
    let mut r = if secure == Some(true) {
        String::from_str("https")
    } else {
        String::from_str("http")
    };
    r.append("://");
    r.append(d.as_str());
    match path {
        Some(p) => r.append(p.as_str()),
        None => r.append("/"),
    }
    Ok(r)
}

} // verus!
