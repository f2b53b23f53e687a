//! The lines that the command `LIST` answers with.
use crate::error::{Error, ErrorView};
use crate::iri::{
    absolute_error, is_absolute_iri, is_plain_place, is_relative_reference, relative_error, resolution_error, resolve_normalized,
    resolved_normalized, same_place, takes_authority,
};
use crate::metadata::{
    all_in_place, entry_views, file_entry, Attributes, AttributesView, FileMetadata, FileMetadataView, FileType,
    FileTypeView,
};
use crate::text::{
    decimal_digits, decimal_text, is_digit, lemma_decimal_digits_value, optional_text, texts,
    unsigned_value,
};
use suppaftp::list::ParseError;
use vstd::prelude::*;

verus! {

/// A file as a line describes it.
#[derive(Debug, PartialEq, Eq)]
pub struct ListedFile {
    pub name: String,
    pub is_file: bool,
    pub is_directory: bool,
    pub is_symlink: bool,
    /// What a symbolic link leads to.
    pub symlink: Option<String>,
    /// The size in bytes.
    pub size: usize,
    /// The time of the last change, in seconds since the start of 1970 (UTC).
    pub modified: u64,
    /// The number of the owner.
    pub uid: Option<u32>,
    /// The number of the group.
    pub gid: Option<u32>,
}

/// What a line says of a file whenever it is read: all but the time of the last change, since the
/// line may leave out the year.
pub struct ListedFacts {
    pub name: Seq<char>,
    pub is_file: bool,
    pub is_directory: bool,
    pub is_symlink: bool,
    pub symlink: Option<Seq<char>>,
    pub size: usize,
    pub uid: Option<u32>,
    pub gid: Option<u32>,
}

/// A file as a line describes it, as text.
pub struct ListedFileView {
    pub facts: ListedFacts,
    pub modified: u64,
}

impl View for ListedFile {
    type V = ListedFileView;

    open spec fn view(&self) -> ListedFileView {
        ListedFileView {
            facts: ListedFacts {
                name: self.name@,
                is_file: self.is_file,
                is_directory: self.is_directory,
                is_symlink: self.is_symlink,
                symlink: optional_text(self.symlink),
                size: self.size,
                uid: self.uid,
                gid: self.gid,
            },
            modified: self.modified,
        }
    }
}

impl ListedFileView {
    /// Whether the file is of exactly one kind and has a target where it is a link.
    pub open spec fn wf(self) -> bool {
        &&& self.facts.is_file ==> !self.facts.is_directory && !self.facts.is_symlink
        &&& self.facts.is_directory ==> !self.facts.is_symlink
        &&& self.facts.is_file || self.facts.is_directory || self.facts.is_symlink
        &&& self.facts.is_symlink <==> self.facts.symlink is Some
    }
}

/// What comes of reading a line in a year, or what is wrong with it: what
/// `suppaftp::list::File::from_str` returns, with the sizes that `usize` holds.
pub uninterp spec fn listed_in_year(line: Seq<char>, year: int) -> Result<
    ListedFileView,
    ParseError,
>;

/// Whether a line reads the same in every year: it is not in the form of POSIX, which starts with
/// `-`, `d` or `l`, or it holds no time of day, since no `:` stands between two digits.
pub open spec fn is_timeless(line: Seq<char>) -> bool {
    ||| line.len() == 0
    ||| line[0] != '-' && line[0] != 'd' && line[0] != 'l'
    ||| forall|i: int|
        0 < i < line.len() - 1 && #[trigger] line[i] == ':' ==> !is_digit(line[i - 1]) || !is_digit(
            line[i + 1],
        )
}

/// Whether a file fits a line: its kind is the one that the first letter gives, and the line ends
/// with its name, but for a link.
pub open spec fn fits_line(facts: ListedFacts, line: Seq<char>) -> bool {
    &&& line.len() > 0
    &&& line[0] == '-' ==> facts.is_file
    &&& line[0] == 'd' ==> facts.is_directory
    &&& line[0] == 'l' <==> facts.is_symlink
    &&& !facts.is_symlink ==> 0 < facts.name.len() <= line.len() && facts.name == line.skip(
        line.len() - facts.name.len(),
    )
}

/// `suppaftp::list::File::from_str` of the crate `suppaftp`, which reads a line in the forms of
/// POSIX and DOS. A time without a year is taken as one of the year in which the line is read, by a
/// clock that stands behind the start of 1970; but for that year the result depends on the line
/// alone, and not on the year either where the line gives no time of day in the form of POSIX. Where
/// a line is read, the year bears on the time only, the file is of one kind, which a first letter
/// `-`, `d` or `l` gives, and a name that is not that of a link ends the line. Which year is taken
/// is not stated.
#[verifier::external_body]
pub(crate) fn parse_list_line(line: &str) -> (r: Result<ListedFile, ParseError>)
    ensures
        exists|year: int| outcome_view(r) == #[trigger] listed_in_year(line@, year),
        is_timeless(line@) ==> outcome_view(r) == listed_in_year(line@, 0),
        r matches Ok(file) ==> fits_line(file@.facts, line@) && file@.wf() && forall|year: int|
            (#[trigger] listed_in_year(line@, year) matches Ok(other) ==> other.facts
                == file@.facts),
{
    let file = line.parse::<suppaftp::list::File>()?;
    let modified = file.modified().duration_since(std::time::UNIX_EPOCH).unwrap().as_secs();
    Ok(
        ListedFile {
            name: String::from(file.name()),
            is_file: file.is_file(),
            is_directory: file.is_directory(),
            is_symlink: file.is_symlink(),
            symlink: file.symlink().map(|path| path.to_string_lossy().into_owned()),
            size: file.size(),
            modified,
            uid: file.uid(),
            gid: file.gid(),
        },
    )
}

/// The kind of a listed file. What a link leads to is resolved against `host`.
pub open spec fn listed_type(facts: ListedFacts, host: Seq<char>) -> Result<
    FileTypeView,
    ErrorView,
> {
    if facts.is_file {
        Ok(FileTypeView::Regular)
    } else if facts.is_directory {
        Ok(FileTypeView::Directory { children: Seq::empty() })
    } else if facts.is_symlink {
        let target = match facts.symlink {
            Some(text) => text,
            None => Seq::empty(),
        };
        if is_absolute_iri(host) && is_relative_reference(target) {
            Ok(FileTypeView::Symlink { target: resolved_normalized(target, host) })
        } else {
            Err(ErrorView::Url(resolution_error(target, host)))
        }
    } else {
        Err(ErrorView::Other("unknown file type"@))
    }
}

/// The decimal digits of an optional number.
pub open spec fn optional_digits(n: Option<u32>) -> Option<Seq<char>> {
    match n {
        Some(n) => Some(decimal_digits(n as nat)),
        None => None,
    }
}

/// The file that a line describes. Its name is resolved against `host`.
pub open spec fn listed_entry(file: ListedFileView, host: Seq<char>) -> Result<
    FileMetadataView,
    ErrorView,
> {
    let facts = file.facts;
    match listed_type(facts, host) {
        Err(error) => Err(error),
        Ok(filetype) => if is_absolute_iri(host) && is_relative_reference(facts.name) {
            let about = AttributesView {
                modification_date: Some(file.modified as i64),
                size: Some(facts.size),
                owner: optional_digits(facts.uid),
                group: optional_digits(facts.gid),
            };
            Ok(file_entry(resolved_normalized(facts.name, host), about, filetype))
        } else {
            Err(ErrorView::Url(resolution_error(facts.name, host)))
        },
    }
}

/// The file that a line describes, of which `outcome` came.
pub open spec fn listed_line(
    outcome: Result<ListedFileView, ParseError>,
    host: Seq<char>,
) -> Result<FileMetadataView, ErrorView> {
    match outcome {
        Err(error) => Err(ErrorView::ListParse(error)),
        Ok(file) => listed_entry(file, host),
    }
}

/// The files that lines describe, in their order: one for each line. The first line that cannot be
/// read or makes no file is an error.
pub open spec fn listed_entries(
    parsed: Seq<Result<ListedFileView, ParseError>>,
    host: Seq<char>,
) -> Result<Seq<FileMetadataView>, ErrorView>
    decreases parsed.len(),
{
    if parsed.len() == 0 {
        Ok(Seq::empty())
    } else {
        match listed_entries(parsed.drop_last(), host) {
            Err(error) => Err(error),
            Ok(entries) => match listed_line(parsed.last(), host) {
                Err(error) => Err(error),
                Ok(entry) => Ok(entries.push(entry)),
            },
        }
    }
}

/// What is wrong with some of the lines at the front is what is wrong with all of them.
proof fn lemma_listed_error(
    parsed: Seq<Result<ListedFileView, ParseError>>,
    host: Seq<char>,
    n: int,
)
    requires
        0 <= n <= parsed.len(),
        listed_entries(parsed.take(n), host) is Err,
    ensures
        listed_entries(parsed, host) == listed_entries(parsed.take(n), host),
    decreases parsed.len(),
{
    if n == parsed.len() {
        assert(parsed.take(n) == parsed);
    } else {
        assert(parsed.drop_last().take(n) == parsed.take(n));
        lemma_listed_error(parsed.drop_last(), host, n);
    }
}

/// What came of reading a line, as text.
pub open spec fn outcome_view(outcome: Result<ListedFile, ParseError>) -> Result<
    ListedFileView,
    ParseError,
> {
    match outcome {
        Ok(file) => Ok(file@),
        Err(error) => Err(error),
    }
}

/// What came of reading each of some lines, as text.
pub open spec fn outcome_views(
    outcomes: Seq<Result<ListedFile, ParseError>>,
) -> Seq<Result<ListedFileView, ParseError>> {
    outcomes.map_values(|outcome: Result<ListedFile, ParseError>| outcome_view(outcome))
}

/// Whether `outcome` can come of reading a line: it is what comes of it in some year, and in any
/// year where the line reads the same in all of them.
pub open spec fn is_outcome_of(
    outcome: Result<ListedFileView, ParseError>,
    line: Seq<char>,
) -> bool {
    &&& exists|year: int| outcome == #[trigger] listed_in_year(line, year)
    &&& is_timeless(line) ==> outcome == listed_in_year(line, 0)
    &&& outcome matches Ok(file) ==> fits_line(file.facts, line) && file.wf() && forall|year: int|
        (#[trigger] listed_in_year(line, year) matches Ok(other) ==> other.facts == file.facts)
}

/// Whether `parsed` can come of reading `lines`.
pub open spec fn reads(
    lines: Seq<Seq<char>>,
    parsed: Seq<Result<ListedFileView, ParseError>>,
) -> bool {
    &&& parsed.len() == lines.len()
    &&& forall|i: int| 0 <= i < lines.len() ==> is_outcome_of(#[trigger] parsed[i], lines[i])
}

/// Whether the name of each file that was read takes the authority of `host`.
pub open spec fn names_take_authority(
    parsed: Seq<Result<ListedFileView, ParseError>>,
    host: Seq<char>,
) -> bool {
    forall|i: int|
        0 <= i < parsed.len() ==> (#[trigger] parsed[i] matches Ok(file) ==> takes_authority(
            file.facts.name,
            host,
        ))
}

/// Reads lines.
pub fn parse_list_lines(lines: &Vec<String>) -> (r: Vec<
    Result<ListedFile, ParseError>,
>)
    ensures
        reads(texts(lines@), outcome_views(r@)),
{
    let mut r: Vec<Result<ListedFile, ParseError>> = Vec::new();
    let ghost all = texts(lines@);
    let mut i: usize = 0;
    while i < lines.len()
        invariant
            i <= lines.len(),
            all == texts(lines@),
            reads(all.take(i as int), outcome_views(r@)),
        decreases lines.len() - i,
    {
        let ghost before = outcome_views(r@);
        let outcome = parse_list_line(lines[i].as_str());
        let ghost read = outcome_view(outcome);
        r.push(outcome);
        proof {
            assert(outcome_views(r@) == before.push(read));
            assert(all[i as int] == lines@[i as int]@);
            assert forall|k: int| 0 <= k < i + 1 implies is_outcome_of(
                #[trigger] outcome_views(r@)[k],
                all.take(i + 1)[k],
            ) by {
                if k < i {
                    assert(before[k] == outcome_views(r@)[k]);
                    assert(all.take(i as int)[k] == all.take(i + 1)[k]);
                }
            }
        }
        i = i + 1;
    }
    assert(all.take(i as int) == all);
    r
}

/// The decimal digits of an optional number.
fn optional_decimal(n: Option<u32>) -> (r: Option<String>)
    ensures
        optional_text(r) == optional_digits(n),
{
    match n {
        Some(n) => Some(decimal_text(n)),
        None => None,
    }
}

/// The kind of a listed file.
fn type_of_listed(file: &ListedFile, host: &str) -> (r: Result<FileType, Error>)
    ensures
        match r {
            Ok(filetype) => listed_type(file@.facts, host@) == Ok::<FileTypeView, ErrorView>(
                filetype@,
            ),
            Err(error) => listed_type(file@.facts, host@) == Err::<FileTypeView, ErrorView>(error@),
        },
{
    if file.is_file {
        Ok(FileType::Regular)
    } else if file.is_directory {
        let children: Vec<String> = Vec::new();
        assert(texts(children@) == Seq::<Seq<char>>::empty());
        Ok(FileType::Directory { children })
    } else if file.is_symlink {
        let target = match &file.symlink {
            Some(text) => text.clone(),
            None => String::new(),
        };
        match resolve_normalized(target.as_str(), host) {
            Ok(target) => Ok(FileType::Symlink { target }),
            Err(error) => Err(Error::from(error)),
        }
    } else {
        Err(Error::Other("unknown file type"))
    }
}

/// The file that a line describes. Its name, and what it leads to if it is a link, are resolved
/// against `host`.
pub fn entry_of_listed(file: &ListedFile, host: &str) -> (r: Result<FileMetadata, Error>)
    ensures
        match r {
            Ok(entry) => {
                &&& listed_entry(file@, host@) == Ok::<FileMetadataView, ErrorView>(entry@)
                &&& is_plain_place(host@) && takes_authority(file@.facts.name, host@)
                    ==> same_place(entry@.id->Some_0, host@)
            },
            Err(error) => listed_entry(file@, host@) == Err::<FileMetadataView, ErrorView>(error@),
        },
{
    let filetype = match type_of_listed(file, host) {
        Ok(filetype) => filetype,
        Err(error) => return Err(error),
    };
    let id = match resolve_normalized(file.name.as_str(), host) {
        Ok(id) => id,
        Err(error) => return Err(Error::from(error)),
    };
    let about = Attributes {
        modification_date: Some(file.modified as i64),
        size: Some(file.size),
        owner: optional_decimal(file.uid),
        group: optional_decimal(file.gid),
    };
    Ok(FileMetadata::new(id, about, filetype))
}

/// The files that lines describe, of which `parsed` came: one for each line, in their order.
pub fn entries_of_listed(
    parsed: Vec<Result<ListedFile, ParseError>>,
    host: &str,
) -> (r: Result<Vec<FileMetadata>, Error>)
    ensures
        match r {
            Ok(entries) => {
                &&& listed_entries(outcome_views(parsed@), host@) == Ok::<
                    Seq<FileMetadataView>,
                    ErrorView,
                >(entry_views(entries@))
                &&& is_plain_place(host@) && names_take_authority(outcome_views(parsed@), host@)
                    ==> all_in_place(entry_views(entries@), host@)
            },
            Err(error) => listed_entries(outcome_views(parsed@), host@) == Err::<
                Seq<FileMetadataView>,
                ErrorView,
            >(error@),
        },
{
    let ghost all = outcome_views(parsed@);
    let mut entries: Vec<FileMetadata> = Vec::new();
    assert(entry_views(entries@) == Seq::<FileMetadataView>::empty());
    for outcome in it: parsed
        invariant
            it.seq() == parsed@,
            all == outcome_views(parsed@),
            listed_entries(all.take(it.index()), host@) == Ok::<Seq<FileMetadataView>, ErrorView>(
                entry_views(entries@),
            ),
            is_plain_place(host@) && names_take_authority(all, host@) ==> all_in_place(
                entry_views(entries@),
                host@,
            ),
    {
        proof {
            let i = it.index();
            assert(all[i] == outcome_view(outcome));
            assert(all.take(i + 1).drop_last() == all.take(i));
        }
        let file = match outcome {
            Ok(file) => file,
            Err(error) => {
                proof {
                    lemma_listed_error(all, host@, it.index() + 1);
                }
                return Err(Error::from(error));
            },
        };
        let entry = match entry_of_listed(&file, host) {
            Ok(entry) => entry,
            Err(error) => {
                proof {
                    lemma_listed_error(all, host@, it.index() + 1);
                }
                return Err(error);
            },
        };
        let ghost before = entry_views(entries@);
        let ghost added = entry@;
        entries.push(entry);
        assert(entry_views(entries@) == before.push(added));
    }
    assert(all.take(all.len() as int) == all);
    Ok(entries)
}

/// Each line gives one entry, in the order of the lines.
pub proof fn law_one_entry_per_line(
    parsed: Seq<Result<ListedFileView, ParseError>>,
    host: Seq<char>,
)
    requires
        listed_entries(parsed, host) is Ok,
    ensures
        ({
            let entries = listed_entries(parsed, host)->Ok_0;
            &&& entries.len() == parsed.len()
            &&& forall|i: int|
                0 <= i < parsed.len() ==> listed_line(#[trigger] parsed[i], host) == Ok::<
                    FileMetadataView,
                    ErrorView,
                >(entries[i])
        }),
    decreases parsed.len(),
{
    if parsed.len() > 0 {
        let before = parsed.drop_last();
        law_one_entry_per_line(before, host);
        let entries = listed_entries(parsed, host)->Ok_0;
        assert forall|i: int| 0 <= i < parsed.len() implies listed_line(#[trigger] parsed[i], host)
            == Ok::<FileMetadataView, ErrorView>(entries[i]) by {
            if i < before.len() {
                assert(before[i] == parsed[i]);
            }
        }
    }
}

/// Lines make an error if one of them does; the error is that of the first such line.
pub proof fn law_first_bad_line(
    parsed: Seq<Result<ListedFileView, ParseError>>,
    host: Seq<char>,
    bad: int,
)
    requires
        0 <= bad < parsed.len(),
        listed_line(parsed[bad], host) is Err,
        forall|i: int| 0 <= i < bad ==> listed_line(#[trigger] parsed[i], host) is Ok,
    ensures
        listed_entries(parsed, host) == Err::<Seq<FileMetadataView>, ErrorView>(
            listed_line(parsed[bad], host)->Err_0,
        ),
{
    let front = parsed.take(bad + 1);
    law_good_lines(parsed.take(bad), host);
    assert(front.drop_last() == parsed.take(bad));
    lemma_listed_error(parsed, host, bad + 1);
}

/// Lines that make no error make none together.
pub proof fn law_good_lines(parsed: Seq<Result<ListedFileView, ParseError>>, host: Seq<char>)
    requires
        forall|i: int| 0 <= i < parsed.len() ==> listed_line(#[trigger] parsed[i], host) is Ok,
    ensures
        listed_entries(parsed, host) is Ok,
    decreases parsed.len(),
{
    if parsed.len() > 0 {
        assert(listed_line(parsed[parsed.len() - 1], host) is Ok);
        law_good_lines(parsed.drop_last(), host);
    }
}

/// A listed file of one kind is of that kind in its entry, whatever else is known of it: a regular
/// file, a directory with nothing in it, or a link to what its target resolves to. The entry is
/// identified by the name, resolved against the host, and has the size and the time of the file;
/// the owner and the group are its numbers, which can be read back. It is refused only where the
/// name or the target is no reference.
pub proof fn law_listed_entry(file: ListedFileView, host: Seq<char>)
    requires
        file.wf(),
    ensures
        match listed_entry(file, host) {
            Ok(entry) => {
                &&& is_absolute_iri(host) && is_relative_reference(file.facts.name)
                &&& entry.id == Some(resolved_normalized(file.facts.name, host))
                &&& entry.about.modification_date == Some(file.modified as i64)
                &&& file.modified <= i64::MAX ==> file.modified as i64 == file.modified
                &&& entry.about.size == Some(file.facts.size)
                &&& entry.about.owner is Some <==> file.facts.uid is Some
                &&& file.facts.uid matches Some(uid) ==> entry.about.owner == Some(
                    decimal_digits(uid as nat),
                ) && unsigned_value(entry.about.owner->Some_0) == Some(uid as int)
                &&& entry.about.group is Some <==> file.facts.gid is Some
                &&& file.facts.gid matches Some(gid) ==> entry.about.group == Some(
                    decimal_digits(gid as nat),
                ) && unsigned_value(entry.about.group->Some_0) == Some(gid as int)
                &&& entry.filetype is Regular <==> file.facts.is_file
                &&& entry.filetype is Directory <==> file.facts.is_directory
                &&& entry.filetype is Symlink <==> file.facts.is_symlink
                &&& entry.filetype matches FileTypeView::Directory { children } ==> children.len()
                    == 0
                &&& entry.filetype matches FileTypeView::Symlink { target } ==> target
                    == resolved_normalized(file.facts.symlink->Some_0, host)
            },
            Err(error) => {
                let target = file.facts.symlink->Some_0;
                &&& !is_absolute_iri(host) ==> error == ErrorView::Url(absolute_error(host))
                &&& is_absolute_iri(host) ==> if file.facts.is_symlink && !is_relative_reference(
                    target,
                ) {
                    error == ErrorView::Url(relative_error(target))
                } else {
                    !is_relative_reference(file.facts.name) && error == ErrorView::Url(
                        relative_error(file.facts.name),
                    )
                }
            },
        },
{
    if let Some(uid) = file.facts.uid {
        lemma_decimal_digits_value(uid as nat);
    }
    if let Some(gid) = file.facts.gid {
        lemma_decimal_digits_value(gid as nat);
    }
}

/// A listed file of no kind is refused for that, and a link without a target leads to the host.
pub proof fn law_odd_listed_files(file: ListedFileView, host: Seq<char>)
    ensures
        !file.facts.is_file && !file.facts.is_directory && !file.facts.is_symlink ==> listed_entry(
            file,
            host,
        ) == Err::<FileMetadataView, ErrorView>(ErrorView::Other("unknown file type"@)),
        !file.facts.is_file && !file.facts.is_directory && file.facts.is_symlink
            && file.facts.symlink is None ==> (listed_entry(file, host) matches Ok(entry)
            ==> entry.filetype == (FileTypeView::Symlink {
            target: resolved_normalized(Seq::empty(), host),
        })),
{
}

/// No lines give no entries. One more line adds its entry behind those of the lines before it; a
/// line that was not read gives the error with which it was not.
pub proof fn law_one_more_line(
    parsed: Seq<Result<ListedFileView, ParseError>>,
    outcome: Result<ListedFileView, ParseError>,
    host: Seq<char>,
)
    ensures
        listed_entries(Seq::empty(), host) == Ok::<Seq<FileMetadataView>, ErrorView>(Seq::empty()),
        ({
            let after = listed_entries(parsed.push(outcome), host);
            match listed_entries(parsed, host) {
                Err(error) => after == Err::<Seq<FileMetadataView>, ErrorView>(error),
                Ok(entries) => match outcome {
                    Err(error) => after == Err::<Seq<FileMetadataView>, ErrorView>(
                        ErrorView::ListParse(error),
                    ),
                    Ok(file) => match listed_entry(file, host) {
                        Err(error) => after == Err::<Seq<FileMetadataView>, ErrorView>(error),
                        Ok(entry) => after is Ok && after->Ok_0 =~= entries + seq![entry],
                    },
                },
            }
        }),
{
    assert(parsed.push(outcome).drop_last() == parsed);
    assert(parsed.push(outcome).last() == outcome);
    assert(listed_entries(Seq::empty(), host) == Ok::<Seq<FileMetadataView>, ErrorView>(
        Seq::empty(),
    ));
}

/// What is known of a listed file is what it holds.
pub proof fn law_listed_file(file: ListedFile)
    ensures
        file@.facts.name == file.name@,
        file@.facts.is_file == file.is_file,
        file@.facts.is_directory == file.is_directory,
        file@.facts.is_symlink == file.is_symlink,
        file@.facts.symlink is Some <==> file.symlink is Some,
        file.symlink matches Some(target) ==> file@.facts.symlink == Some(target@),
        file@.facts.size == file.size,
        file@.facts.uid == file.uid,
        file@.facts.gid == file.gid,
        file@.modified == file.modified,
{
}

/// Outcomes as text hold what came of each line, at its place.
pub proof fn law_outcome_views(outcomes: Seq<Result<ListedFile, ParseError>>)
    ensures
        outcome_views(outcomes).len() == outcomes.len(),
        forall|i: int|
            0 <= i < outcomes.len() ==> match #[trigger] outcomes[i] {
                Ok(file) => outcome_views(outcomes)[i] == Ok::<ListedFileView, ParseError>(file@),
                Err(error) => outcome_views(outcomes)[i] == Err::<ListedFileView, ParseError>(
                    error,
                ),
            },
{
}

/// What comes of reading lines does not depend on when they are read, but for the times in lines
/// that may leave out the year, and whether those can be read.
pub proof fn law_reading(
    lines: Seq<Seq<char>>,
    now: Seq<Result<ListedFileView, ParseError>>,
    later: Seq<Result<ListedFileView, ParseError>>,
)
    requires
        reads(lines, now),
        reads(lines, later),
    ensures
        now.len() == later.len(),
        forall|i: int|
            #![trigger now[i]]
            0 <= i < now.len() && is_timeless(lines[i]) ==> now[i] == later[i],
        forall|i: int|
            #![trigger now[i]]
            0 <= i < now.len() && now[i] is Ok && later[i] is Ok ==> now[i]->Ok_0.facts
                == later[i]->Ok_0.facts,
        (forall|i: int| 0 <= i < lines.len() ==> is_timeless(#[trigger] lines[i])) ==> now == later,
{
    assert forall|i: int|
        #![trigger now[i]]
        0 <= i < now.len() implies (is_timeless(lines[i]) ==> now[i] == later[i]) && (now[i] is Ok
        && later[i] is Ok ==> now[i]->Ok_0.facts == later[i]->Ok_0.facts) by {
        assert(is_outcome_of(now[i], lines[i]));
        assert(is_outcome_of(later[i], lines[i]));
    }
    if forall|i: int| 0 <= i < lines.len() ==> is_timeless(#[trigger] lines[i]) {
        assert forall|i: int| 0 <= i < now.len() implies now[i] == later[i] by {
            assert(is_timeless(lines[i]));
        }
        assert(now == later);
    }
}

/// What is read of lines is, for each line as it stands, what comes of it in some year, and where
/// the line is not in the form of POSIX or holds no `:`, in any year.
pub proof fn law_reads(
    lines: Seq<Seq<char>>,
    parsed: Seq<Result<ListedFileView, ParseError>>,
    i: int,
)
    requires
        reads(lines, parsed),
    ensures
        parsed.len() == lines.len(),
        0 <= i < lines.len() ==> exists|year: int|
            parsed[i] == #[trigger] listed_in_year(lines[i], year),
        0 <= i < lines.len() && (!lines[i].contains(':') || (lines[i].len() > 0 && '0' <= lines[i][0]
            <= '9')) ==> parsed[i] == listed_in_year(lines[i], 0),
{
    if 0 <= i < lines.len() {
        assert(is_outcome_of(parsed[i], lines[i]));
    }
}

} // verus!
