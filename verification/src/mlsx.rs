//! The files that the replies to `MLST` and `MLSD` describe.
use crate::error::{Error, ErrorView};
use crate::facts::{is_key, line_facts, line_name, parse_facts, Facts};
use crate::iri::{
    absolute_error, is_absolute_iri, is_plain_place, is_relative_reference, relative_error, resolution_error, resolve_normalized,
    resolved_normalized, same_place, takes_authority,
};
use crate::metadata::{
    all_in_place, entry_views, file_entry, Attributes, AttributesView, FileMetadata,
    FileMetadataView, FileType, FileTypeView,
};
use crate::text::{
    bounded_value, decimal_digits, join_path, joined, lemma_decimal_digits_value,
    lemma_unsigned_value_nonneg, optional_text, parse_usize, same_text, texts, unsigned_value,
};
use crate::time::{datetime, parse_datetime};
use jiff::Error as JiffError;
use vstd::prelude::*;

verus! {

/// The value of a fact, where it is given.
pub open spec fn fact(facts: Map<Seq<char>, Seq<char>>, key: Seq<char>) -> Option<Seq<char>> {
    if facts.contains_key(key) {
        Some(facts[key])
    } else {
        None
    }
}

/// The size that facts give, where they give a number that fits.
pub open spec fn size_fact(facts: Map<Seq<char>, Seq<char>>) -> Option<usize> {
    match fact(facts, "size"@) {
        Some(text) => match bounded_value(text, usize::MAX as int) {
            Some(n) => Some(n as usize),
            None => None,
        },
        None => None,
    }
}

/// The time that facts give, where they give one; a time that cannot be read is an error.
pub open spec fn date_fact(facts: Map<Seq<char>, Seq<char>>) -> Result<Option<i64>, ErrorView> {
    match fact(facts, "modify"@) {
        Some(text) => match datetime(text) {
            Ok(seconds) => Ok(Some(seconds)),
            Err(error) => Err(ErrorView::Timestamp(error)),
        },
        None => Ok(None),
    }
}

/// The type that facts give, and the other attributes. Facts without a type are an error.
pub open spec fn described(facts: Map<Seq<char>, Seq<char>>) -> Result<
    (Seq<char>, AttributesView),
    ErrorView,
> {
    match fact(facts, "type"@) {
        None => Err(ErrorView::Other("no file type"@)),
        Some(kind) => match date_fact(facts) {
            Err(error) => Err(error),
            Ok(modification_date) => Ok(
                (
                    kind,
                    AttributesView {
                        modification_date,
                        size: size_fact(facts),
                        owner: fact(facts, "UNIX.ownername"@),
                        group: fact(facts, "UNIX.groupname"@),
                    },
                ),
            ),
        },
    }
}

/// The error for a type that is none of those known.
pub open spec fn unknown_type(kind: Seq<char>) -> ErrorView {
    ErrorView::MlstParse("unknown file type: "@ + kind)
}

/// The error for a type that is none of those known.
pub fn unknown_type_error(kind: &str) -> (r: Error)
    ensures
        r@ == unknown_type(kind@),
{
    let mut message = "unknown file type: ".to_owned();
    message.append(kind);
    Error::MlstParse(message)
}

/// The value of a fact, where it is given.
fn fact_text(facts: &Facts, key: &str) -> (r: Option<String>)
    ensures
        optional_text(r) == fact(facts@, key@),
        r is Some ==> is_key(key@),
{
    match facts.get(key) {
        Some(value) => Some(value.clone()),
        None => None,
    }
}

/// The size that facts give.
fn size_of(facts: &Facts) -> (r: Option<usize>)
    ensures
        r == size_fact(facts@),
{
    match facts.get("size") {
        Some(text) => match parse_usize(text.as_str()) {
            Ok(size) => Some(size),
            Err(_) => None,
        },
        None => None,
    }
}

/// The type that facts give, and the other attributes. The keys of facts are in lower case, so that
/// no owner and no group is found.
pub fn describe(facts: &Facts) -> (r: Result<(String, Attributes), Error>)
    ensures
        match r {
            Ok((kind, about)) => {
                &&& described(facts@) == Ok::<(Seq<char>, AttributesView), ErrorView>(
                    (kind@, about@),
                )
                &&& about.owner is None
                &&& about.group is None
            },
            Err(error) => described(facts@) == Err::<(Seq<char>, AttributesView), ErrorView>(
                error@,
            ),
        },
{
    let kind = match facts.get("type") {
        Some(kind) => kind.clone(),
        None => return Err(Error::Other("no file type")),
    };
    let modification_date = match facts.get("modify") {
        Some(text) => match parse_datetime(text.as_str()) {
            Ok(seconds) => Some(seconds),
            Err(error) => return Err(error),
        },
        None => None,
    };
    let size = size_of(facts);
    let owner = fact_text(facts, "UNIX.ownername");
    let group = fact_text(facts, "UNIX.groupname");
    proof {
        reveal_strlit("UNIX.ownername");
        reveal_strlit("UNIX.groupname");
        assert("UNIX.ownername"@[0] == 'U');
        assert("UNIX.groupname"@[0] == 'U');
    }
    Ok((kind, Attributes { modification_date, size, owner, group }))
}

/// Whether a name stands for the directory that is listed, or for the one above it.
pub open spec fn is_dot_name(name: Seq<char>) -> bool {
    name == "."@ || name == ".."@
}

/// The kind of a file in a directory. A link leads to what its name resolves to against `host`.
pub open spec fn child_type(kind: Seq<char>, name: Seq<char>, host: Seq<char>) -> Result<
    FileTypeView,
    ErrorView,
> {
    if kind == "file"@ {
        Ok(FileTypeView::Regular)
    } else if kind == "dir"@ {
        Ok(FileTypeView::Directory { children: Seq::empty() })
    } else if kind == "OS.unix=symlink"@ {
        if is_absolute_iri(host) && is_relative_reference(name) {
            Ok(FileTypeView::Symlink { target: resolved_normalized(name, host) })
        } else {
            Err(ErrorView::Url(resolution_error(name, host)))
        }
    } else {
        Err(unknown_type(kind))
    }
}

/// The file that a line of the reply for the directory `dir` describes: none where the line stands
/// for the directory itself or the one above it. The path of the file is resolved against `host`.
pub open spec fn child_entry(dir: Seq<char>, separator: char, host: Seq<char>, line: Seq<char>) -> Result<
    Option<FileMetadataView>,
    ErrorView,
> {
    let name = line_name(line);
    let path = joined(dir, name, separator);
    if is_dot_name(name) {
        Ok(None)
    } else if !is_absolute_iri(host) || !is_relative_reference(path) {
        Err(ErrorView::Url(resolution_error(path, host)))
    } else {
        match described(line_facts(line)) {
            Err(error) => Err(error),
            Ok((kind, about)) => match child_type(kind, name, host) {
                Err(error) => Err(error),
                Ok(filetype) => Ok(
                    Some(file_entry(resolved_normalized(path, host), about, filetype)),
                ),
            },
        }
    }
}

/// The files that the lines of the reply for the directory `dir` describe, in their order. The
/// first line that makes none is an error.
pub open spec fn child_entries(dir: Seq<char>, separator: char, host: Seq<char>, lines: Seq<Seq<char>>) -> Result<
    Seq<FileMetadataView>,
    ErrorView,
>
    decreases lines.len(),
{
    if lines.len() == 0 {
        Ok(Seq::empty())
    } else {
        match child_entries(dir, separator, host, lines.drop_last()) {
            Err(error) => Err(error),
            Ok(entries) => match child_entry(dir, separator, host, lines.last()) {
                Err(error) => Err(error),
                Ok(None) => Ok(entries),
                Ok(Some(entry)) => Ok(entries.push(entry)),
            },
        }
    }
}

/// What is wrong with some of the lines at the front is what is wrong with all of them.
proof fn lemma_child_error(dir: Seq<char>, separator: char, host: Seq<char>, lines: Seq<Seq<char>>, n: int)
    requires
        0 <= n <= lines.len(),
        child_entries(dir, separator, host, lines.take(n)) is Err,
    ensures
        child_entries(dir, separator, host, lines) == child_entries(dir, separator, host, lines.take(n)),
    decreases lines.len(),
{
    if n == lines.len() {
        assert(lines.take(n) == lines);
    } else {
        assert(lines.drop_last().take(n) == lines.take(n));
        lemma_child_error(dir, separator, host, lines.drop_last(), n);
    }
}

/// Whether files have neither an owner nor a group.
pub open spec fn without_owner(entries: Seq<FileMetadataView>) -> bool {
    forall|i: int|
        0 <= i < entries.len() ==> (#[trigger] entries[i]).about.owner is None
            && entries[i].about.group is None
}

/// Whether the path of each file in the directory `dir` takes the authority of `host`.
pub open spec fn paths_take_authority(
    dir: Seq<char>,
    separator: char,
    host: Seq<char>,
    lines: Seq<Seq<char>>,
) -> bool {
    forall|i: int|
        0 <= i < lines.len() ==> takes_authority(joined(dir, line_name(#[trigger] lines[i]), separator), host)
}

/// The kind of a file in a directory.
fn type_of_child(kind: &str, name: &str, host: &str) -> (r: Result<FileType, Error>)
    ensures
        match r {
            Ok(filetype) => child_type(kind@, name@, host@) == Ok::<FileTypeView, ErrorView>(
                filetype@,
            ),
            Err(error) => child_type(kind@, name@, host@) == Err::<FileTypeView, ErrorView>(error@),
        },
{
    if same_text(kind, "file") {
        Ok(FileType::Regular)
    } else if same_text(kind, "dir") {
        let children: Vec<String> = Vec::new();
        assert(texts(children@) == Seq::<Seq<char>>::empty());
        Ok(FileType::Directory { children })
    } else if same_text(kind, "OS.unix=symlink") {
        match resolve_normalized(name, host) {
            Ok(target) => Ok(FileType::Symlink { target }),
            Err(error) => Err(Error::from(error)),
        }
    } else {
        Err(unknown_type_error(kind))
    }
}

/// The file that a line of the reply for the directory `dir` describes, with its identifier.
pub fn entry_of_child(dir: &str, separator: char, host: &str, line: &str) -> (r: Result<
    Option<(String, FileMetadata)>,
    Error,
>)
    ensures
        match r {
            Ok(None) => child_entry(dir@, separator, host@, line@) == Ok::<Option<FileMetadataView>, ErrorView>(
                None,
            ),
            Ok(Some((id, entry))) => {
                &&& child_entry(dir@, separator, host@, line@) == Ok::<Option<FileMetadataView>, ErrorView>(
                    Some(entry@),
                )
                &&& entry@.id == Some(id@)
                &&& entry@.about.owner is None
                &&& entry@.about.group is None
                &&& is_plain_place(host@) && takes_authority(joined(dir@, line_name(line@), separator), host@)
                    ==> same_place(id@, host@)
            },
            Err(error) => child_entry(dir@, separator, host@, line@) == Err::<
                Option<FileMetadataView>,
                ErrorView,
            >(error@),
        },
{
    let (facts, name) = parse_facts(line);
    if same_text(name.as_str(), ".") || same_text(name.as_str(), "..") {
        return Ok(None);
    }
    let path = join_path(dir, name.as_str(), separator);
    let id = match resolve_normalized(path.as_str(), host) {
        Ok(id) => id,
        Err(error) => return Err(Error::from(error)),
    };
    let (kind, about) = match describe(&facts) {
        Ok(description) => description,
        Err(error) => return Err(error),
    };
    let filetype = match type_of_child(kind.as_str(), name.as_str(), host) {
        Ok(filetype) => filetype,
        Err(error) => return Err(error),
    };
    let entry = FileMetadata::new(id.clone(), about, filetype);
    Ok(Some((id, entry)))
}

/// The identifiers of files.
pub open spec fn entry_ids(entries: Seq<FileMetadataView>) -> Seq<Seq<char>> {
    entries.map_values(|entry: FileMetadataView| entry.id->Some_0)
}

/// The files that the lines of the reply for the directory `dir` describe, with their identifiers.
pub fn entries_of_children(dir: &str, separator: char, host: &str, lines: &Vec<String>) -> (r: Result<
    (Vec<String>, Vec<FileMetadata>),
    Error,
>)
    ensures
        match r {
            Ok((ids, entries)) => {
                &&& child_entries(dir@, separator, host@, texts(lines@)) == Ok::<
                    Seq<FileMetadataView>,
                    ErrorView,
                >(entry_views(entries@))
                &&& texts(ids@) == entry_ids(entry_views(entries@))
                &&& without_owner(entry_views(entries@))
                &&& is_plain_place(host@) && paths_take_authority(dir@, separator, host@, texts(lines@))
                    ==> all_in_place(entry_views(entries@), host@)
            },
            Err(error) => child_entries(dir@, separator, host@, texts(lines@)) == Err::<
                Seq<FileMetadataView>,
                ErrorView,
            >(error@),
        },
{
    let ghost all = texts(lines@);
    let mut ids: Vec<String> = Vec::new();
    let mut entries: Vec<FileMetadata> = Vec::new();
    assert(entry_views(entries@) == Seq::<FileMetadataView>::empty());
    let mut i: usize = 0;
    while i < lines.len()
        invariant
            i <= lines.len(),
            all == texts(lines@),
            child_entries(dir@, separator, host@, all.take(i as int)) == Ok::<
                Seq<FileMetadataView>,
                ErrorView,
            >(entry_views(entries@)),
            texts(ids@) == entry_ids(entry_views(entries@)),
            without_owner(entry_views(entries@)),
            is_plain_place(host@) && paths_take_authority(dir@, separator, host@, all) ==> all_in_place(
                entry_views(entries@),
                host@,
            ),
        decreases lines.len() - i,
    {
        let line = lines[i].as_str();
        proof {
            assert(all[i as int] == line@);
            assert(all.take(i + 1).drop_last() == all.take(i as int));
        }
        match entry_of_child(dir, separator, host, line) {
            Ok(None) => {},
            Ok(Some((id, entry))) => {
                let ghost ids_before = texts(ids@);
                let ghost before = entry_views(entries@);
                let ghost added = entry@;
                let ghost added_id = id@;
                ids.push(id);
                entries.push(entry);
                proof {
                    assert(entry_views(entries@) == before.push(added));
                    assert(texts(ids@) == ids_before.push(added_id));
                    assert(entry_ids(before.push(added)) == entry_ids(before).push(added_id));
                }
            },
            Err(error) => {
                proof {
                    lemma_child_error(dir@, separator, host@, all, i + 1);
                }
                return Err(error);
            },
        }
        i = i + 1;
    }
    assert(all.take(i as int) == all);
    Ok((ids, entries))
}

/// The lines that stand for files in the directory: all but those for the directory itself and the
/// one above it.
pub open spec fn child_lines(lines: Seq<Seq<char>>) -> Seq<Seq<char>> {
    lines.filter(
        |line: Seq<char>| line_name(line) != seq!['.'] && line_name(line) != seq!['.', '.'],
    )
}

/// Each line that stands for a file in the directory gives one entry, in the order of the lines.
pub proof fn law_one_entry_per_child(dir: Seq<char>, separator: char, host: Seq<char>, lines: Seq<Seq<char>>)
    requires
        child_entries(dir, separator, host, lines) is Ok,
    ensures
        ({
            let entries = child_entries(dir, separator, host, lines)->Ok_0;
            &&& entries.len() == child_lines(lines).len()
            &&& forall|i: int|
                0 <= i < entries.len() ==> child_entry(dir, separator, host, #[trigger] child_lines(lines)[i])
                    == Ok::<Option<FileMetadataView>, ErrorView>(Some(entries[i]))
        }),
    decreases lines.len(),
{
    reveal_with_fuel(Seq::<_>::filter, 2);
    if lines.len() > 0 {
        let before = lines.drop_last();
        let line = lines.last();
        law_one_entry_per_child(dir, separator, host, before);
        law_skipped_lines(dir, separator, host, line);
        if line_name(line) == seq!['.'] || line_name(line) == seq!['.', '.'] {
            assert(child_lines(lines) == child_lines(before));
        } else {
            assert(child_lines(lines) == child_lines(before).push(line));
        }
    }
}

/// Every entry is identified by the path of its file in the directory, resolved against the host.
pub proof fn law_child_id(dir: Seq<char>, separator: char, host: Seq<char>, line: Seq<char>)
    requires
        child_entry(dir, separator, host, line) matches Ok(found) && found is Some,
    ensures
        child_entry(dir, separator, host, line)->Ok_0->Some_0.id == Some(
            resolved_normalized(joined(dir, line_name(line), separator), host),
        ),
{
}

/// A directory inside the directory that is listed is not looked into: its entry has no children.
pub proof fn law_nested_directory(dir: Seq<char>, separator: char, host: Seq<char>, line: Seq<char>)
    requires
        child_entry(dir, separator, host, line) matches Ok(found) && found is Some,
        child_entry(dir, separator, host, line)->Ok_0->Some_0.filetype is Directory,
    ensures
        child_entry(dir, separator, host, line)->Ok_0->Some_0.filetype == (FileTypeView::Directory {
            children: Seq::empty(),
        }),
{
}

/// The lines of a directory make an error if one of them does; the error is that of the first such
/// line.
pub proof fn law_first_bad_child(
    dir: Seq<char>,
    separator: char,
    host: Seq<char>,
    lines: Seq<Seq<char>>,
    bad: int,
)
    requires
        0 <= bad < lines.len(),
        child_entry(dir, separator, host, lines[bad]) is Err,
        forall|i: int| 0 <= i < bad ==> child_entry(dir, separator, host, #[trigger] lines[i]) is Ok,
    ensures
        child_entries(dir, separator, host, lines) == Err::<Seq<FileMetadataView>, ErrorView>(
            child_entry(dir, separator, host, lines[bad])->Err_0,
        ),
{
    let front = lines.take(bad + 1);
    law_good_children(dir, separator, host, lines.take(bad));
    assert(front.drop_last() == lines.take(bad));
    lemma_child_error(dir, separator, host, lines, bad + 1);
}

/// Lines of a directory that make no error make none together.
pub proof fn law_good_children(dir: Seq<char>, separator: char, host: Seq<char>, lines: Seq<Seq<char>>)
    requires
        forall|i: int| 0 <= i < lines.len() ==> child_entry(dir, separator, host, #[trigger] lines[i]) is Ok,
    ensures
        child_entries(dir, separator, host, lines) is Ok,
    decreases lines.len(),
{
    if lines.len() > 0 {
        assert(child_entry(dir, separator, host, lines[lines.len() - 1]) is Ok);
        law_good_children(dir, separator, host, lines.drop_last());
    }
}

/// A line of a directory gives no entry if and only if its name is one dot or two dots; any other
/// gives an entry or an error.
pub proof fn law_skipped_lines(
    dir: Seq<char>,
    separator: char,
    host: Seq<char>,
    line: Seq<char>,
)
    ensures
        child_entry(dir, separator, host, line) == Ok::<Option<FileMetadataView>, ErrorView>(None)
            <==> line_name(line) =~= seq!['.'] || line_name(line) =~= seq!['.', '.'],
{
    reveal_strlit(".");
    reveal_strlit("..");
    assert("."@ =~= seq!['.']);
    assert(".."@ =~= seq!['.', '.']);
}

/// Facts describe a file if and only if they give a type and no time that cannot be read. The type
/// and the time are those that they give; the size is the number that they give, where it is one
/// that fits; the owner and the group are those under their keys.
pub proof fn law_described(facts: Map<Seq<char>, Seq<char>>)
    ensures
        match described(facts) {
            Ok((kind, about)) => {
                &&& facts.contains_key("type"@) && kind == facts["type"@]
                &&& match about.modification_date {
                    Some(seconds) => facts.contains_key("modify"@) && datetime(facts["modify"@])
                        == Ok::<i64, JiffError>(seconds),
                    None => !facts.contains_key("modify"@),
                }
                &&& match about.size {
                    Some(size) => facts.contains_key("size"@) && unsigned_value(facts["size"@])
                        == Some(size as int),
                    None => facts.contains_key("size"@) ==> match unsigned_value(facts["size"@]) {
                        Some(n) => n > usize::MAX,
                        None => true,
                    },
                }
                &&& match about.owner {
                    Some(owner) => facts.contains_key("UNIX.ownername"@) && owner
                        == facts["UNIX.ownername"@],
                    None => !facts.contains_key("UNIX.ownername"@),
                }
                &&& match about.group {
                    Some(group) => facts.contains_key("UNIX.groupname"@) && group
                        == facts["UNIX.groupname"@],
                    None => !facts.contains_key("UNIX.groupname"@),
                }
            },
            Err(ErrorView::Other(message)) => !facts.contains_key("type"@) && message
                == "no file type"@,
            Err(ErrorView::Timestamp(error)) => facts.contains_key("type"@) && facts.contains_key(
                "modify"@,
            ) && datetime(facts["modify"@]) == Err::<i64, JiffError>(error),
            Err(_) => false,
        },
{
    if facts.contains_key("size"@) {
        lemma_unsigned_value_nonneg(facts["size"@]);
    }
}

/// A size that is written as the decimal digits of a number that fits is that number.
pub proof fn law_size(facts: Map<Seq<char>, Seq<char>>, n: nat)
    requires
        facts.contains_key("size"@),
        facts["size"@] == decimal_digits(n),
        n <= usize::MAX,
    ensures
        described(facts) matches Ok((kind, about)) ==> about.size == Some(n as usize),
{
    lemma_decimal_digits_value(n);
}

/// A line that is not skipped gives an entry under the path of its name in the directory, as its
/// facts describe it: a regular file, a directory with nothing in it, or a link to what its name
/// resolves to. It gives an error for a path or a link that is no reference, for facts that
/// describe nothing, and for a type that is none of these.
pub proof fn law_child_entry(dir: Seq<char>, separator: char, host: Seq<char>, line: Seq<char>)
    ensures
        ({
            let name = line_name(line);
            let path = joined(dir, name, separator);
            let facts = line_facts(line);
            let kind = facts["type"@];
            match child_entry(dir, separator, host, line) {
                Ok(None) => true,
                Ok(Some(entry)) => {
                    &&& is_absolute_iri(host) && is_relative_reference(path)
                    &&& entry.id == Some(resolved_normalized(path, host))
                    &&& described(facts) == Ok::<(Seq<char>, AttributesView), ErrorView>(
                        (kind, entry.about),
                    )
                    &&& match entry.filetype {
                        FileTypeView::Regular => kind == "file"@,
                        FileTypeView::Directory { children } => kind == "dir"@ && children.len()
                            == 0,
                        FileTypeView::Symlink { target } => kind == "OS.unix=symlink"@
                            && is_relative_reference(name) && target == resolved_normalized(
                            name,
                            host,
                        ),
                    }
                },
                Err(error) => {
                    &&& !is_absolute_iri(host) ==> error == ErrorView::Url(absolute_error(host))
                    &&& is_absolute_iri(host) && !is_relative_reference(path) ==> error
                        == ErrorView::Url(relative_error(path))
                    &&& is_absolute_iri(host) && is_relative_reference(path) ==> match described(
                        facts,
                    ) {
                        Err(wrong) => error == wrong,
                        Ok(_) => if kind == "OS.unix=symlink"@ {
                            !is_relative_reference(name) && error == ErrorView::Url(
                                relative_error(name),
                            )
                        } else {
                            kind != "file"@ && kind != "dir"@ && error == ErrorView::MlstParse(
                                "unknown file type: "@ + kind,
                            )
                        },
                    }
                },
            }
        }),
{
    reveal_strlit("file");
    reveal_strlit("dir");
    reveal_strlit("OS.unix=symlink");
    assert("file"@.len() == 4 && "dir"@.len() == 3 && "OS.unix=symlink"@.len() == 15);
}

/// No lines give no entries, and one more line adds its entry behind those of the lines before it,
/// where it gives one.
pub proof fn law_one_more_child(
    dir: Seq<char>,
    separator: char,
    host: Seq<char>,
    lines: Seq<Seq<char>>,
    line: Seq<char>,
)
    ensures
        child_entries(dir, separator, host, Seq::empty()) == Ok::<
            Seq<FileMetadataView>,
            ErrorView,
        >(Seq::empty()),
        match (child_entries(dir, separator, host, lines), child_entry(dir, separator, host, line)) {
            (Err(error), _) => child_entries(dir, separator, host, lines.push(line)) == Err::<
                Seq<FileMetadataView>,
                ErrorView,
            >(error),
            (Ok(_), Err(error)) => child_entries(dir, separator, host, lines.push(line)) == Err::<
                Seq<FileMetadataView>,
                ErrorView,
            >(error),
            (Ok(entries), Ok(None)) => child_entries(dir, separator, host, lines.push(line))
                == Ok::<Seq<FileMetadataView>, ErrorView>(entries),
            (Ok(entries), Ok(Some(entry))) => child_entries(
                dir,
                separator,
                host,
                lines.push(line),
            ) is Ok && child_entries(dir, separator, host, lines.push(line))->Ok_0 =~= entries
                + seq![entry],
        },
{
    assert(lines.push(line).drop_last() == lines);
    assert(lines.push(line).last() == line);
    assert(child_entries(dir, separator, host, Seq::<Seq<char>>::empty()) == Ok::<
        Seq<FileMetadataView>,
        ErrorView,
    >(Seq::empty()));
}

} // verus!
