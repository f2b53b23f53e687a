//! Files that were fetched.
use crate::iri::{
    absolute_error, check_absolute, is_absolute_iri, is_plain_place, is_relative_reference,
    relative_error, resolve_normalized, resolved_normalized, same_place, takes_authority,
};
use crate::text::{
    join_with, last_segment, law_split_and_join, lemma_split_on_nonempty, optional_text, split_on,
};
use vstd::prelude::*;

verus! {

/// A file that was fetched.
#[derive(Debug, PartialEq, Eq)]
pub struct File {
    /// The identifier of the file: its IRI.
    pub id: Option<String>,
    pub name: Option<String>,
    /// The size in bytes.
    pub size: u64,
    pub data: Vec<u8>,
}

/// A file that was fetched, as text and bytes.
pub struct FileView {
    pub id: Option<Seq<char>>,
    pub name: Option<Seq<char>>,
    pub size: u64,
    pub data: Seq<u8>,
}

impl View for File {
    type V = FileView;

    open spec fn view(&self) -> FileView {
        FileView {
            id: optional_text(self.id),
            name: optional_text(self.name),
            size: self.size,
            data: self.data@,
        }
    }
}

/// The URL of a host, against which paths are resolved.
pub struct HostUrl {
    text: String,
}

impl View for HostUrl {
    type V = Seq<char>;

    closed spec fn view(&self) -> Seq<char> {
        self.text@
    }
}

/// The file at `path` with the contents `data`: it is named by the last segment of the path.
pub open spec fn fetched(path: Seq<char>, host: Seq<char>, data: Seq<u8>) -> FileView {
    FileView {
        id: Some(resolved_normalized(path, host)),
        name: Some(file_name(path)),
        size: data.len() as u64,
        data,
    }
}

/// The name of the file at `path`: the last segment of the path.
pub open spec fn file_name(path: Seq<char>) -> Seq<char> {
    split_on(path, '/').last()
}

impl HostUrl {
    #[verifier::type_invariant]
    spec fn inv(&self) -> bool {
        is_absolute_iri(self.text@)
    }

    /// Takes the URL of a host, which must be absolute.
    pub fn new(url: &str) -> (r: Result<HostUrl, iri_string::validate::Error>)
        ensures
            match r {
                Ok(host) => is_absolute_iri(url@) && host@ == url@,
                Err(error) => !is_absolute_iri(url@) && error == absolute_error(url@),
            },
    {
        match check_absolute(url) {
            Ok(_) => Ok(HostUrl { text: url.to_owned() }),
            Err(error) => Err(error),
        }
    }

    /// The file at `path` on this host, with the contents `data`. The path must be a relative
    /// reference.
    pub fn file(&self, path: &str, data: Vec<u8>) -> (r: Result<File, iri_string::validate::Error>)
        ensures
            match r {
                Ok(file) => {
                    &&& is_relative_reference(path@)
                    &&& file@ == fetched(path@, self@, data@)
                    &&& file@.data == data@
                    &&& file@.size == data@.len()
                    &&& file.data@ == data@
                    &&& file.size == data@.len()
                    &&& file.id is Some
                    &&& file.id->Some_0@ == resolved_normalized(path@, self@)
                    &&& file.name is Some
                    &&& is_last_segment(file.name->Some_0@, path@)
                    &&& is_plain_place(self@) && takes_authority(path@, self@) ==> same_place(
                        file@.id->Some_0,
                        self@,
                    )
                },
                Err(error) => !is_relative_reference(path@) && error == relative_error(path@),
            },
    {
        proof {
            use_type_invariant(self);
        }
        let name = last_segment(path);
        proof {
            law_file_name(path@);
        }
        let id = match resolve_normalized(path, self.text.as_str()) {
            Ok(id) => id,
            Err(error) => return Err(error),
        };
        let size = data.len() as u64;
        Ok(File { id: Some(id), name: Some(name), size, data })
    }
}

/// Whether `name` is the last segment of `path`: it holds no slash, and it is the whole path or what
/// follows a slash at its end.
pub open spec fn is_last_segment(name: Seq<char>, path: Seq<char>) -> bool {
    &&& !name.contains('/')
    &&& path == name || exists|dir: Seq<char>| path == #[trigger] (dir.push('/') + name)
}

/// The name of a file is the last segment of its path, and no other text is.
pub proof fn law_file_name(path: Seq<char>)
    ensures
        !file_name(path).contains('/'),
        path == file_name(path) || exists|dir: Seq<char>|
            path == #[trigger] (dir.push('/') + file_name(path)),
        forall|name: Seq<char>| #[trigger] is_last_segment(name, path) ==> name == file_name(path),
{
    lemma_file_name(path);
    assert forall|name: Seq<char>| #[trigger] is_last_segment(name, path) implies name == file_name(
        path,
    ) by {
        lemma_one_last_segment(name, file_name(path), path);
    }
}

/// A path has one last segment.
proof fn lemma_one_last_segment(a: Seq<char>, b: Seq<char>, path: Seq<char>)
    requires
        is_last_segment(a, path),
        is_last_segment(b, path),
    ensures
        a == b,
{
    lemma_last_segment_shape(a, path);
    lemma_last_segment_shape(b, path);
    if a.len() < b.len() {
        let at = path.len() - a.len() - 1;
        assert(path[at] == '/');
        assert(b[at - (path.len() - b.len())] == path[at]);
    }
    if b.len() < a.len() {
        let at = path.len() - b.len() - 1;
        assert(path[at] == '/');
        assert(a[at - (path.len() - a.len())] == path[at]);
    }
    assert(a =~= b);
}

proof fn lemma_last_segment_shape(name: Seq<char>, path: Seq<char>)
    requires
        is_last_segment(name, path),
    ensures
        name.len() <= path.len(),
        name =~= path.skip(path.len() - name.len()),
        name.len() < path.len() ==> path[path.len() - name.len() - 1] == '/',
{
    if path != name {
        let dir = choose|dir: Seq<char>| path == #[trigger] (dir.push('/') + name);
        assert(path[dir.len() as int] == '/');
        assert(name =~= path.skip(path.len() - name.len()));
    }
}

/// A fetched file holds the bytes that were fetched and their number, the identifier of its path
/// and, as its name, the last segment of the path.
pub proof fn law_fetched(path: Seq<char>, host: Seq<char>, data: Seq<u8>)
    requires
        data.len() <= u64::MAX,
    ensures
        fetched(path, host, data).data == data,
        fetched(path, host, data).size == data.len(),
        fetched(path, host, data).id == Some(resolved_normalized(path, host)),
        fetched(path, host, data).name matches Some(name) && is_last_segment(name, path),
{
    law_file_name(path);
}

/// What is known of a file is what the file holds.
pub proof fn law_file(file: File)
    ensures
        file@.data == file.data@,
        file@.size == file.size,
        file@.id is Some <==> file.id is Some,
        file.id matches Some(id) ==> file@.id == Some(id@),
        file@.name is Some <==> file.name is Some,
        file.name matches Some(name) ==> file@.name == Some(name@),
{
}

proof fn lemma_file_name(path: Seq<char>)
    ensures
        is_last_segment(file_name(path), path),
{
    let pieces = split_on(path, '/');
    lemma_split_on_nonempty(path, '/');
    law_split_and_join(path, '/');
    assert(!pieces[pieces.len() - 1].contains('/'));
    lemma_join_ends_with_last(pieces);
}

proof fn lemma_join_ends_with_last(pieces: Seq<Seq<char>>)
    requires
        pieces.len() > 0,
    ensures
        join_with(pieces, '/') == pieces.last() || exists|dir: Seq<char>|
            join_with(pieces, '/') == #[trigger] (dir.push('/') + pieces.last()),
    decreases pieces.len(),
{
    if pieces.len() > 1 {
        let rest = pieces.drop_first();
        let front = pieces[0].push('/');
        lemma_join_ends_with_last(rest);
        if join_with(rest, '/') == rest.last() {
            assert(join_with(pieces, '/') == pieces[0].push('/') + pieces.last());
        } else {
            let dir = choose|dir: Seq<char>|
                join_with(rest, '/') == #[trigger] (dir.push('/') + rest.last());
            assert(front + (dir.push('/') + rest.last()) == (front + dir).push('/')
                + pieces.last());
        }
    }
}

} // verus!
