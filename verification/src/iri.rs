//! Internationalized resource identifiers (RFC 3987): their components and their resolution.
use crate::text::{first_of, is_capital, lemma_first_of, optional_text};
use iri_string::format::ToDedicatedString;
use iri_string::types::{IriAbsoluteStr, IriReferenceStr, IriRelativeStr};
use iri_string::validate::Error as ValidateError;
use vstd::prelude::*;

verus! {

/// The crate `iri_string`'s error for text that is no identifier of the wanted kind.
#[verifier::external_type_specification]
#[verifier::external_body]
pub struct ExIriError(ValidateError);

/// What is wrong with `s` as an IRI reference by the grammar of RFC 3987, where something is: the
/// error of `iri_string::types::IriReferenceStr::new`.
pub uninterp spec fn reference_error(s: Seq<char>) -> Option<ValidateError>;

/// Whether `s` is an IRI reference by the grammar of RFC 3987.
pub open spec fn is_iri_reference(s: Seq<char>) -> bool {
    reference_error(s) is None
}

/// The scheme of a reference: what stands before its first `:`, where no `/`, `?` or `#` comes
/// earlier.
pub open spec fn scheme_of(s: Seq<char>) -> Option<Seq<char>> {
    let end = first_of(s, seq![':', '/', '?', '#']);
    if end < s.len() && s[end] == ':' {
        Some(s.take(end))
    } else {
        None
    }
}

/// A reference without its scheme and the `:` behind it.
pub open spec fn behind_scheme(s: Seq<char>) -> Seq<char> {
    match scheme_of(s) {
        Some(scheme) => s.skip(scheme.len() as int + 1),
        None => s,
    }
}

/// The authority of a reference: what follows `//` behind the scheme, up to the next `/`, `?` or
/// `#`.
pub open spec fn authority_of(s: Seq<char>) -> Option<Seq<char>> {
    let rest = behind_scheme(s);
    if rest.len() >= 2 && rest[0] == '/' && rest[1] == '/' {
        let text = rest.skip(2);
        Some(text.take(first_of(text, seq!['/', '?', '#'])))
    } else {
        None
    }
}

/// A reference without its scheme and its authority.
pub open spec fn behind_authority(s: Seq<char>) -> Seq<char> {
    match authority_of(s) {
        Some(authority) => behind_scheme(s).skip(authority.len() as int + 2),
        None => behind_scheme(s),
    }
}

/// The path of a reference: what follows the authority, up to the next `?` or `#`.
pub open spec fn path_of(s: Seq<char>) -> Seq<char> {
    let rest = behind_authority(s);
    rest.take(first_of(rest, seq!['?', '#']))
}

/// The user information of an authority: what stands before its first `@`.
pub open spec fn userinfo_of(authority: Seq<char>) -> Option<Seq<char>> {
    let end = first_of(authority, seq!['@']);
    if end < authority.len() {
        Some(authority.take(end))
    } else {
        None
    }
}

/// An authority without its user information.
pub open spec fn behind_userinfo(authority: Seq<char>) -> Seq<char> {
    match userinfo_of(authority) {
        Some(userinfo) => authority.skip(userinfo.len() as int + 1),
        None => authority,
    }
}

/// The position in `s` of the `:` that starts a port: the last `:`, where no `]` follows it.
pub open spec fn port_colon(s: Seq<char>) -> Option<int>
    decreases s.len(),
{
    if s.len() == 0 || s.last() == ']' {
        None
    } else if s.last() == ':' {
        Some(s.len() - 1)
    } else {
        port_colon(s.drop_last())
    }
}

/// The host of an authority.
pub open spec fn host_of(authority: Seq<char>) -> Seq<char> {
    let rest = behind_userinfo(authority);
    match port_colon(rest) {
        Some(colon) => rest.take(colon),
        None => rest,
    }
}

/// The port of an authority: what follows the `:` behind the host.
pub open spec fn port_of(authority: Seq<char>) -> Option<Seq<char>> {
    let rest = behind_userinfo(authority);
    match port_colon(rest) {
        Some(colon) => Some(rest.skip(colon + 1)),
        None => None,
    }
}

/// The authority of a reference in its parts.
pub struct Authority {
    pub userinfo: Option<String>,
    pub host: String,
    pub port: Option<String>,
}

/// A reference in its parts: scheme, authority and path.
pub struct IriParts {
    pub scheme: Option<String>,
    pub authority: Option<Authority>,
    pub path: String,
}

/// An authority in its parts, as text.
pub struct AuthorityView {
    pub userinfo: Option<Seq<char>>,
    pub host: Seq<char>,
    pub port: Option<Seq<char>>,
}

/// A reference in its parts, as text.
pub struct IriPartsView {
    pub scheme: Option<Seq<char>>,
    pub authority: Option<AuthorityView>,
    pub path: Seq<char>,
}

impl View for Authority {
    type V = AuthorityView;

    open spec fn view(&self) -> AuthorityView {
        AuthorityView {
            userinfo: optional_text(self.userinfo),
            host: self.host@,
            port: optional_text(self.port),
        }
    }
}

impl View for IriParts {
    type V = IriPartsView;

    open spec fn view(&self) -> IriPartsView {
        IriPartsView {
            scheme: optional_text(self.scheme),
            authority: match self.authority {
                Some(authority) => Some(authority@),
                None => None,
            },
            path: self.path@,
        }
    }
}

/// The parts of a reference.
pub open spec fn parts_of(s: Seq<char>) -> IriPartsView {
    IriPartsView {
        scheme: scheme_of(s),
        authority: match authority_of(s) {
            Some(text) => Some(
                AuthorityView {
                    userinfo: userinfo_of(text),
                    host: host_of(text),
                    port: port_of(text),
                },
            ),
            None => None,
        },
        path: path_of(s),
    }
}

/// `IriReferenceStr::new` of the crate `iri_string`, with `scheme_str`, `authority_components`
/// and `path_str` of the reference that it accepts: whether a text is an IRI reference, and which
/// error comes of one that is not, depends on the text alone, and the parts of a reference are
/// those that RFC 3986 sections 3.1 to 3.3 delimit.
#[verifier::external_body]
pub(crate) fn split_iri_reference(s: &str) -> (r: Result<IriParts, ValidateError>)
    ensures
        match r {
            Ok(parts) => reference_error(s@) is None && parts@ == parts_of(s@),
            Err(error) => reference_error(s@) == Some(error),
        },
{
    let iri = IriReferenceStr::new(s)?;
    let authority = iri.authority_components().map(
        |parts|
            Authority {
                userinfo: parts.userinfo().map(String::from),
                host: String::from(parts.host()),
                port: parts.port().map(String::from),
            },
    );
    let scheme = iri.scheme_str().map(String::from);
    Ok(IriParts { scheme, authority, path: String::from(iri.path_str()) })
}

/// Whether `s` is an absolute IRI: a reference with a scheme and without a fragment.
pub open spec fn is_absolute_iri(s: Seq<char>) -> bool {
    is_iri_reference(s) && scheme_of(s) is Some && !s.contains('#')
}

/// Whether `s` is a relative reference: one without a scheme.
pub open spec fn is_relative_reference(s: Seq<char>) -> bool {
    is_iri_reference(s) && scheme_of(s) is None
}

/// What is wrong with a text that is no absolute IRI: the error of
/// `iri_string::types::IriAbsoluteStr::new`.
pub uninterp spec fn absolute_error(s: Seq<char>) -> ValidateError;

/// What is wrong with a text that is no relative reference: the error of
/// `iri_string::types::IriRelativeStr::new`.
pub uninterp spec fn relative_error(s: Seq<char>) -> ValidateError;

/// What is wrong where a reference cannot be resolved against a base: the base is looked at first.
pub open spec fn resolution_error(reference: Seq<char>, base: Seq<char>) -> ValidateError {
    if is_absolute_iri(base) {
        relative_error(reference)
    } else {
        absolute_error(base)
    }
}

/// `IriAbsoluteStr::new` of the crate `iri_string`: it accepts a reference with a scheme and without
/// a fragment. The error that comes of other text depends on the text alone.
#[verifier::external_body]
pub(crate) fn check_absolute(s: &str) -> (r: Result<(), ValidateError>)
    ensures
        match r {
            Ok(_) => is_absolute_iri(s@),
            Err(error) => !is_absolute_iri(s@) && error == absolute_error(s@),
        },
{
    IriAbsoluteStr::new(s).map(|_iri| ())
}

/// A relative reference resolved against an absolute IRI by RFC 3986 section 5: what
/// `iri_string`'s `resolve_against` writes.
pub uninterp spec fn resolved(reference: Seq<char>, base: Seq<char>) -> Seq<char>;

/// A relative reference resolved against an absolute IRI, then normalized: what `iri_string`'s
/// `resolve_against` writes after `and_normalize`.
pub uninterp spec fn resolved_normalized(reference: Seq<char>, base: Seq<char>) -> Seq<char>;

/// Whether `iri` names the place that `base` names: it is a reference with the same scheme and the
/// same authority.
pub open spec fn same_place(iri: Seq<char>, base: Seq<char>) -> bool {
    &&& is_iri_reference(iri)
    &&& scheme_of(iri) == scheme_of(base)
    &&& authority_of(iri) == authority_of(base)
}

/// Whether `base` has an authority and `reference` has none of its own.
pub open spec fn takes_authority(reference: Seq<char>, base: Seq<char>) -> bool {
    authority_of(base) is Some && authority_of(reference) is None
}

/// Whether normalization leaves `base` its scheme and its authority: there are no capitals in the
/// scheme, the host and the port, no percent-encoding in the authority, and no `:` at its end.
pub open spec fn is_plain_place(base: Seq<char>) -> bool {
    scheme_of(base) matches Some(scheme) && authority_of(base) matches Some(authority) && {
        &&& forall|i: int| 0 <= i < scheme.len() ==> !is_capital(#[trigger] scheme[i])
        &&& forall|i: int|
            0 <= i < behind_userinfo(authority).len() ==> !is_capital(
                #[trigger] behind_userinfo(authority)[i],
            )
        &&& !authority.contains('%')
        &&& authority.len() > 0 ==> authority.last() != ':'
    }
}

/// `IriRelativeStr::resolve_against` of the crate `iri_string`. `IriAbsoluteStr::new` accepts the
/// base where it is a reference with a scheme and without a fragment, `IriRelativeStr::new` the
/// reference where it is one without a scheme; what comes of resolving depends on the two texts
/// alone. The scheme and the authority are those of the base, where it has an authority and the
/// reference has none. Of other text comes the error for the base, or else for the reference.
#[verifier::external_body]
pub(crate) fn resolve(reference: &str, base: &str) -> (r: Result<
    String,
    ValidateError,
>)
    ensures
        match r {
            Ok(iri) => is_absolute_iri(base@) && is_relative_reference(reference@) && iri@
                == resolved(reference@, base@) && (takes_authority(reference@, base@)
                ==> same_place(iri@, base@)),
            Err(error) => {
                &&& !is_absolute_iri(base@) || !is_relative_reference(reference@)
                &&& !is_absolute_iri(base@) ==> error == absolute_error(base@)
                &&& is_absolute_iri(base@) ==> error == relative_error(reference@)
            },
        },
{
    let base = IriAbsoluteStr::new(base)?;
    let iri = IriRelativeStr::new(reference)?.resolve_against(base);
    Ok(String::from(iri.to_dedicated_string()))
}

/// `Normalized::and_normalize` of the crate `iri_string`, on what `IriRelativeStr::resolve_against`
/// returns. It accepts the texts that `resolve` accepts, and what comes of it depends on them
/// alone. A scheme and an authority in normal form are kept as resolving keeps them. Of other text
/// comes the error that comes of resolving.
#[verifier::external_body]
pub(crate) fn resolve_normalized(reference: &str, base: &str) -> (r: Result<
    String,
    ValidateError,
>)
    ensures
        match r {
            Ok(iri) => is_absolute_iri(base@) && is_relative_reference(reference@) && iri@
                == resolved_normalized(reference@, base@) && (takes_authority(reference@, base@)
                && is_plain_place(base@) ==> same_place(iri@, base@)),
            Err(error) => {
                &&& !is_absolute_iri(base@) || !is_relative_reference(reference@)
                &&& !is_absolute_iri(base@) ==> error == absolute_error(base@)
                &&& is_absolute_iri(base@) ==> error == relative_error(reference@)
            },
        },
{
    let base = IriAbsoluteStr::new(base)?;
    let iri = IriRelativeStr::new(reference)?.resolve_against(base).and_normalize();
    Ok(String::from(iri.to_dedicated_string()))
}

/// A reference is its scheme with a `:`, `//` with its authority, its path, and what follows that,
/// where it has them, one behind the other.
pub proof fn lemma_reference_is_its_parts(s: Seq<char>)
    ensures
        s =~= (match scheme_of(s) {
            Some(scheme) => scheme + seq![':'],
            None => Seq::empty(),
        }) + (match authority_of(s) {
            Some(authority) => seq!['/', '/'] + authority,
            None => Seq::empty(),
        }) + path_of(s) + behind_authority(s).skip(path_of(s).len() as int),
        scheme_of(s) matches Some(scheme) ==> !scheme.contains(':'),
        authority_of(s) matches Some(authority) ==> !authority.contains('/') && !authority.contains(
            '?',
        ) && !authority.contains('#'),
        !path_of(s).contains('?') && !path_of(s).contains('#'),
        ({
            let rest = behind_authority(s).skip(path_of(s).len() as int);
            rest.len() > 0 ==> rest[0] == '?' || rest[0] == '#'
        }),
{
    let stops = seq![':', '/', '?', '#'];
    lemma_first_of(s, stops);
    let rest = behind_scheme(s);
    assert(stops[0] == ':' && stops[1] == '/' && stops[2] == '?' && stops[3] == '#');
    if scheme_of(s) is Some {
        let scheme = scheme_of(s)->Some_0;
        assert forall|i: int| 0 <= i < scheme.len() implies scheme[i] != ':' by {
            assert(!stops.contains(s[i]));
        }
        assert(s =~= scheme + seq![':'] + rest);
    }
    let ends = seq!['/', '?', '#'];
    assert(ends[0] == '/' && ends[1] == '?' && ends[2] == '#');
    if authority_of(s) is Some {
        let text = rest.skip(2);
        lemma_first_of(text, ends);
        let authority = authority_of(s)->Some_0;
        assert forall|i: int| 0 <= i < authority.len() implies authority[i] != '/' && authority[i]
            != '?' && authority[i] != '#' by {
            assert(!ends.contains(text[i]));
        }
        assert(rest =~= seq!['/', '/'] + authority + behind_authority(s));
    }
    let tail = behind_authority(s);
    let marks = seq!['?', '#'];
    assert(marks[0] == '?' && marks[1] == '#');
    lemma_first_of(tail, marks);
    assert forall|i: int| 0 <= i < path_of(s).len() implies path_of(s)[i] != '?' && path_of(s)[i]
        != '#' by {
        assert(!marks.contains(tail[i]));
    }
    assert(tail =~= path_of(s) + tail.skip(path_of(s).len() as int));
}

/// An authority is its user information with an `@`, its host, and a `:` with its port, where it
/// has them, one behind the other.
pub proof fn lemma_authority_is_its_parts(authority: Seq<char>)
    ensures
        authority =~= (match userinfo_of(authority) {
            Some(userinfo) => userinfo + seq!['@'],
            None => Seq::empty(),
        }) + host_of(authority) + (match port_of(authority) {
            Some(port) => seq![':'] + port,
            None => Seq::empty(),
        }),
        userinfo_of(authority) matches Some(userinfo) ==> !userinfo.contains('@'),
        userinfo_of(authority) is None ==> !authority.contains('@'),
{
    let stops = seq!['@'];
    assert(stops[0] == '@');
    lemma_first_of(authority, stops);
    let rest = behind_userinfo(authority);
    if userinfo_of(authority) is Some {
        let userinfo = userinfo_of(authority)->Some_0;
        assert forall|i: int| 0 <= i < userinfo.len() implies userinfo[i] != '@' by {
            assert(!stops.contains(authority[i]));
        }
        assert(authority =~= userinfo + seq!['@'] + rest);
    } else {
        assert(forall|i: int| 0 <= i < authority.len() ==> #[trigger] authority[i] != '@');
    }
    lemma_port_colon(rest);
    if let Some(colon) = port_colon(rest) {
        assert(rest =~= rest.take(colon) + seq![':'] + rest.skip(colon + 1));
    }
}

proof fn lemma_port_colon(s: Seq<char>)
    ensures
        port_colon(s) matches Some(colon) ==> 0 <= colon < s.len() && s[colon] == ':',
    decreases s.len(),
{
    if s.len() > 0 && s.last() != ']' && s.last() != ':' {
        lemma_port_colon(s.drop_last());
    }
}

} // verus!
