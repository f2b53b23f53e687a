//! The hosts that URLs name, and the paths to ask each of them for.
use crate::iri::{
    authority_of, behind_authority, lemma_authority_is_its_parts, lemma_reference_is_its_parts,
    parts_of, path_of, port_of, reference_error, same_place, scheme_of, userinfo_of, IriParts,
    IriPartsView,
};
use crate::text::{
    bounded_value, decimal_digits, law_split_once, lemma_decimal_digits_value,
    lemma_unsigned_value_nonneg, optional_text, parse_u16, same_text, split_once, split_text_once,
    u16_error, unsigned_value,
};
use iri_string::validate::Error as ValidateError;
use vstd::prelude::*;

verus! {

/// Why a URL cannot be worked with.
#[derive(Debug)]
pub enum UrlError {
    /// The text is no URL.
    Parse(ValidateError),
    /// The scheme is neither `ftp` nor `ftps`.
    UnsupportedScheme,
    /// The port is no port number.
    InvalidPort(std::num::ParseIntError),
    /// The URL names no host.
    NoHost,
}

impl From<ValidateError> for UrlError {
    fn from(error: ValidateError) -> (r: Self) {
        UrlError::Parse(error)
    }
}

impl vstd::std_specs::convert::FromSpecImpl<ValidateError> for UrlError {
    open spec fn obeys_from_spec() -> bool {
        true
    }

    open spec fn from_spec(error: ValidateError) -> Self {
        UrlError::Parse(error)
    }
}

impl From<std::num::ParseIntError> for UrlError {
    fn from(error: std::num::ParseIntError) -> (r: Self) {
        UrlError::InvalidPort(error)
    }
}

impl vstd::std_specs::convert::FromSpecImpl<std::num::ParseIntError> for UrlError {
    open spec fn obeys_from_spec() -> bool {
        true
    }

    open spec fn from_spec(error: std::num::ParseIntError) -> Self {
        UrlError::InvalidPort(error)
    }
}

/// A host to connect to: (scheme, host, port, (user, password)).
#[derive(Debug, PartialEq, Eq, PartialOrd, Ord)]
pub struct TargetHost(pub String, pub String, pub u16, pub (String, String));

/// What a `TargetHost` holds.
#[verifier::ext_equal]
pub struct HostKey {
    pub scheme: Seq<char>,
    pub host: Seq<char>,
    pub port: u16,
    pub user: Seq<char>,
    pub password: Seq<char>,
}

impl View for TargetHost {
    type V = HostKey;

    open spec fn view(&self) -> HostKey {
        HostKey {
            scheme: self.0@,
            host: self.1@,
            port: self.2,
            user: self.3.0@,
            password: self.3.1@,
        }
    }
}

impl TargetHost {
    /// Whether the connection to this host is to be secured by TLS: the scheme is `ftps`.
    pub fn uses_tls(&self) -> (r: bool)
        ensures
            r == (self@.scheme == "ftps"@),
    {
        same_text(self.0.as_str(), "ftps")
    }
}

impl Clone for TargetHost {
    fn clone(&self) -> (r: Self)
        ensures
            r@ == self@,
    {
        TargetHost(
            self.0.clone(),
            self.1.clone(),
            self.2,
            (self.3.0.clone(), self.3.1.clone()),
        )
    }
}

/// The user and password of an authority's user information: what stands before and behind its
/// first `:`. Without a `:` they are those of an anonymous login.
pub open spec fn credentials(userinfo: Option<Seq<char>>) -> (Seq<char>, Seq<char>) {
    match userinfo {
        Some(text) => match split_once(text, ':') {
            Some(pair) => pair,
            None => ("anonymous"@, "guest"@),
        },
        None => ("anonymous"@, "guest"@),
    }
}

/// The port number of an authority's port, which is 21 where it has none.
pub open spec fn port_number(port: Option<Seq<char>>) -> Option<int> {
    match port {
        Some(text) => bounded_value(text, u16::MAX as int),
        None => Some(21),
    }
}

/// The host and the path that the parts of a URL name.
pub open spec fn target(parts: IriPartsView) -> Result<(HostKey, Seq<char>), UrlError> {
    let scheme = match parts.scheme {
        Some(text) => text,
        None => "ftp"@,
    };
    if scheme != "ftp"@ && scheme != "ftps"@ {
        Err(UrlError::UnsupportedScheme)
    } else {
        match parts.authority {
            None => Err(UrlError::NoHost),
            Some(authority) => match port_number(authority.port) {
                None => Err(UrlError::InvalidPort(u16_error(authority.port->Some_0))),
                Some(port) => {
                    let (user, password) = credentials(authority.userinfo);
                    Ok(
                        (
                            HostKey { scheme, host: authority.host, port: port as u16, user, password },
                            parts.path,
                        ),
                    )
                },
            },
        }
    }
}

/// The host and the path that a URL names.
pub open spec fn url_target(url: Seq<char>) -> Result<(HostKey, Seq<char>), UrlError> {
    match reference_error(url) {
        None => target(parts_of(url)),
        Some(error) => Err(UrlError::Parse(error)),
    }
}

/// An identifier of the same place as a URL names the same host, and its own path.
pub proof fn law_same_place_same_host(iri: Seq<char>, url: Seq<char>)
    requires
        same_place(iri, url),
        url_target(url) is Ok,
    ensures
        url_target(iri) == Ok::<(HostKey, Seq<char>), UrlError>(
            (url_target(url)->Ok_0.0, path_of(iri)),
        ),
{
}

/// The user and password of an authority's user information.
fn credentials_of(userinfo: &Option<String>) -> (r: (String, String))
    ensures
        (r.0@, r.1@) == credentials(optional_text(*userinfo)),
{
    if let Some(text) = userinfo {
        if let Some((user, password)) = split_text_once(text.as_str(), ':') {
            return (user.to_owned(), password.to_owned());
        }
    }
    ("anonymous".to_owned(), "guest".to_owned())
}

/// The host and the path that the parts of a URL name.
pub fn target_of(parts: &IriParts) -> (r: Result<(TargetHost, String), UrlError>)
    ensures
        match r {
            Ok((host, path)) => target(parts@) == Ok::<(HostKey, Seq<char>), UrlError>(
                (host@, path@),
            ),
            Err(error) => target(parts@) == Err::<(HostKey, Seq<char>), UrlError>(error),
        },
{
    let scheme = match &parts.scheme {
        Some(text) => text.clone(),
        None => "ftp".to_owned(),
    };
    if !same_text(scheme.as_str(), "ftp") && !same_text(scheme.as_str(), "ftps") {
        return Err(UrlError::UnsupportedScheme);
    }
    let authority = match &parts.authority {
        Some(authority) => authority,
        None => return Err(UrlError::NoHost),
    };
    let port: u16 = match &authority.port {
        Some(text) => match parse_u16(text.as_str()) {
            Ok(port) => port,
            Err(error) => return Err(UrlError::from(error)),
        },
        None => 21,
    };
    let user = credentials_of(&authority.userinfo);
    Ok((TargetHost(scheme, authority.host.clone(), port, user), parts.path.clone()))
}

/// What is known of a host is what the host holds.
pub proof fn law_target_host(host: TargetHost)
    ensures
        host@.scheme == host.0@,
        host@.host == host.1@,
        host@.port == host.2,
        host@.user == host.3.0@,
        host@.password == host.3.1@,
{
}

/// A URL that names a host is made of what it names: the scheme and a `:`, or nothing for `ftp`;
/// `//`; the user information and an `@`, or nothing; the host; a `:` and the port, or nothing for
/// 21; the path; and what starts with `?` or `#`, or nothing.
pub proof fn law_url_is_what_it_names(url: Seq<char>)
    requires
        url_target(url) is Ok,
    ensures
        ({
            let (key, path) = url_target(url)->Ok_0;
            let authority = authority_of(url)->Some_0;
            let front = match scheme_of(url) {
                Some(_) => key.scheme + seq![':'],
                None => Seq::empty(),
            };
            let login = match userinfo_of(authority) {
                Some(userinfo) => userinfo + seq!['@'],
                None => Seq::empty(),
            };
            let port = match port_of(authority) {
                Some(text) => seq![':'] + text,
                None => Seq::empty(),
            };
            let named = front + seq!['/', '/'] + authority + path;
            &&& authority_of(url) is Some
            &&& scheme_of(url) is None ==> key.scheme =~= seq!['f', 't', 'p']
            &&& key.scheme =~= seq!['f', 't', 'p'] || key.scheme =~= seq!['f', 't', 'p', 's']
            &&& authority =~= login + key.host + port
            &&& !authority.contains('/') && !authority.contains('?') && !authority.contains('#')
            &&& !path.contains('?') && !path.contains('#')
            &&& named.len() <= url.len()
            &&& url.take(named.len() as int) =~= named
            &&& url.len() > named.len() ==> url[named.len() as int] == '?' || url[named.len() as int]
                == '#'
            &&& port_of(authority) is None ==> key.port == 21
            &&& port_of(authority) matches Some(text) ==> unsigned_value(text) == Some(
                key.port as int,
            )
        }),
{
    reveal_strlit("ftp");
    reveal_strlit("ftps");
    assert("ftp"@ =~= seq!['f', 't', 'p']);
    assert("ftps"@ =~= seq!['f', 't', 'p', 's']);
    lemma_reference_is_its_parts(url);
    let (key, path) = url_target(url)->Ok_0;
    let authority = authority_of(url)->Some_0;
    lemma_authority_is_its_parts(authority);
    let rest = behind_authority(url).skip(path_of(url).len() as int);
    let front = match scheme_of(url) {
        Some(_) => key.scheme + seq![':'],
        None => Seq::empty(),
    };
    let named = front + seq!['/', '/'] + authority + path;
    assert(url =~= named + rest);
    assert(url.take(named.len() as int) =~= named);
    assert(url.skip(named.len() as int) =~= rest);
    if let Some(text) = port_of(authority) {
        lemma_unsigned_value_nonneg(text);
    }
}

/// Where the user information of a URL holds a `:`, the user, a `:` and the password are exactly
/// the user information, and the user holds no `:`. Otherwise the login is an anonymous one.
pub proof fn law_login(url: Seq<char>)
    requires
        url_target(url) is Ok,
    ensures
        ({
            let key = url_target(url)->Ok_0.0;
            match userinfo_of(authority_of(url)->Some_0) {
                Some(userinfo) => if userinfo.contains(':') {
                    userinfo =~= key.user + seq![':'] + key.password && !key.user.contains(':')
                } else {
                    key.user == "anonymous"@ && key.password == "guest"@
                },
                None => key.user == "anonymous"@ && key.password == "guest"@,
            }
        }),
{
    if let Some(userinfo) = userinfo_of(authority_of(url)->Some_0) {
        law_split_once(userinfo, ':');
    }
}

/// A port that is written as the decimal digits of a number is that number.
pub proof fn law_port(url: Seq<char>, n: nat)
    requires
        url_target(url) is Ok,
        port_of(authority_of(url)->Some_0) == Some(decimal_digits(n)),
    ensures
        url_target(url)->Ok_0.0.port == n,
{
    lemma_decimal_digits_value(n);
}

/// A URL names a host if and only if it is a reference for `ftp` or `ftps`, or for no scheme, with
/// an authority and without a port or with one of at most 65535. Otherwise the first of these that
/// fails is the error.
pub proof fn law_url_errors(url: Seq<char>)
    ensures
        ({
            let known = scheme_of(url) matches Some(scheme) ==> scheme =~= seq!['f', 't', 'p']
                || scheme =~= seq!['f', 't', 'p', 's'];
            let port = port_of(authority_of(url)->Some_0);
            let fits = port matches Some(text) ==> (unsigned_value(text) matches Some(n) && n
                <= 65535);
            match reference_error(url) {
                Some(error) => url_target(url) == Err::<(HostKey, Seq<char>), UrlError>(
                    UrlError::Parse(error),
                ),
                None => {
                    &&& !known <==> url_target(url) == Err::<(HostKey, Seq<char>), UrlError>(
                        UrlError::UnsupportedScheme,
                    )
                    &&& known && authority_of(url) is None <==> url_target(url) == Err::<
                        (HostKey, Seq<char>),
                        UrlError,
                    >(UrlError::NoHost)
                    &&& known && authority_of(url) is Some && !fits ==> url_target(url) == Err::<
                        (HostKey, Seq<char>),
                        UrlError,
                    >(UrlError::InvalidPort(u16_error(port->Some_0)))
                    &&& known && authority_of(url) is Some && fits <==> url_target(url) is Ok
                },
            }
        }),
{
    reveal_strlit("ftp");
    reveal_strlit("ftps");
    assert("ftp"@ =~= seq!['f', 't', 'p']);
    assert("ftps"@ =~= seq!['f', 't', 'p', 's']);
}

} // verus!
