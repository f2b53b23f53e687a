//! Listing the files at a path: which commands to send, and what their replies say.
//!
//! `list` begins a listing, whose first command is `MLST`. What `Listing::on_mlst` makes of the
//! reply is either the result or a listing that waits for the reply to `MLSD` or `LIST`. All
//! commands are sent with the path of the listing.
use crate::error::{response_status, Error, ErrorView, FtpFailure};
use crate::facts::{line_facts, line_name, parse_facts};
use crate::iri::{
    absolute_error, is_absolute_iri, is_plain_place, is_relative_reference, relative_error,
    resolution_error, resolve, resolved,
    same_place, takes_authority,
};
use crate::list_line::{
    entries_of_listed, is_outcome_of, is_timeless, law_one_entry_per_line, law_reading,
    listed_entries, listed_entry, listed_in_year, listed_line, names_take_authority, parse_list_lines, reads,
    ListedFileView,
};
use crate::metadata::{
    all_in_place, entry_views, file_entry, Attributes, AttributesView, FileMetadata,
    FileMetadataView, FileType, FileTypeView,
};
use crate::mlsx::{
    child_entries, child_lines, describe, described, entries_of_children, entry_ids, law_child_id,
    law_one_entry_per_child, paths_take_authority, unknown_type, unknown_type_error, without_owner,
};
use crate::text::{same_text, texts};
use suppaftp::list::ParseError;
use vstd::prelude::*;

verus! {

/// A listing that waits for the reply to `MLST`.
pub struct Listing {
    path: String,
    host: String,
    id: String,
}

/// What is listed: a path, and the URL of its host.
pub struct ListingView {
    pub path: Seq<char>,
    pub host: Seq<char>,
}

impl ListingView {
    /// The identifier of what is listed: the path resolved against the URL of the host.
    pub open spec fn id(self) -> Seq<char> {
        resolved(self.path, self.host)
    }
}

impl View for Listing {
    type V = ListingView;

    closed spec fn view(&self) -> ListingView {
        ListingView { path: self.path@, host: self.host@ }
    }
}

impl Listing {
    #[verifier::type_invariant]
    spec fn inv(&self) -> bool {
        &&& is_absolute_iri(self.host@)
        &&& is_relative_reference(self.path@)
        &&& self.id@ == resolved(self.path@, self.host@)
        &&& takes_authority(self.path@, self.host@) ==> same_place(self.id@, self.host@)
    }
}

/// A listing of a directory that waits for the reply to `MLSD`.
pub struct DirectoryListing {
    listing: Listing,
    about: Attributes,
}

impl DirectoryListing {
    #[verifier::type_invariant]
    spec fn inv(&self) -> bool {
        self.about.owner is None && self.about.group is None
    }

    /// What is listed.
    pub closed spec fn listing(&self) -> ListingView {
        self.listing@
    }

    /// What is known of the directory.
    pub closed spec fn about(&self) -> AttributesView {
        self.about@
    }
}

/// A listing that waits for the reply to `LIST`.
pub struct PlainListing {
    listing: Listing,
}

impl PlainListing {
    /// What is listed.
    pub closed spec fn listing(&self) -> ListingView {
        self.listing@
    }
}

/// How a listing goes on after the reply to `MLST`.
pub enum AfterMlst {
    /// It is done.
    Done(Vec<FileMetadata>),
    /// The path is one of a directory: send `MLSD`.
    AskMlsd(DirectoryListing),
    /// The server does not know `MLST`: send `LIST`.
    AskList(PlainListing),
}

/// How a listing goes on after the reply to `MLST`, as text.
pub enum AfterMlstView {
    Done(Seq<FileMetadataView>),
    AskMlsd { listing: ListingView, about: AttributesView },
    AskList { listing: ListingView },
}

impl View for AfterMlst {
    type V = AfterMlstView;

    open spec fn view(&self) -> AfterMlstView {
        match *self {
            AfterMlst::Done(entries) => AfterMlstView::Done(entry_views(entries@)),
            AfterMlst::AskMlsd(next) => AfterMlstView::AskMlsd {
                listing: next.listing(),
                about: next.about(),
            },
            AfterMlst::AskList(next) => AfterMlstView::AskList { listing: next.listing() },
        }
    }
}

/// A reply of one line, as text.
pub open spec fn line_reply(reply: Result<String, FtpFailure>) -> Result<Seq<char>, FtpFailure> {
    match reply {
        Ok(line) => Ok(line@),
        Err(failure) => Err(failure),
    }
}

/// A reply of some lines, as text.
pub open spec fn lines_reply(reply: Result<Vec<String>, FtpFailure>) -> Result<
    Seq<Seq<char>>,
    FtpFailure,
> {
    match reply {
        Ok(lines) => Ok(texts(lines@)),
        Err(failure) => Err(failure),
    }
}

/// How a listing goes on after the reply to `MLST`: a server that does not know the command is
/// sent `LIST`, and one that says that the path is one of a directory is sent `MLSD`. A link leads
/// to the name in the reply.
pub open spec fn mlst_step(listing: ListingView, reply: Result<Seq<char>, FtpFailure>) -> Result<
    AfterMlstView,
    ErrorView,
> {
    match reply {
        Err(failure) => if failure.unknown_command() {
            Ok(AfterMlstView::AskList { listing })
        } else {
            Err(ErrorView::Ftp(failure.error()))
        },
        Ok(line) => match described(line_facts(line)) {
            Err(error) => Err(error),
            Ok((kind, about)) => if kind == "file"@ {
                Ok(
                    AfterMlstView::Done(
                        seq![file_entry(listing.id(), about, FileTypeView::Regular)],
                    ),
                )
            } else if kind == "dir"@ {
                Ok(AfterMlstView::AskMlsd { listing, about })
            } else if kind == "OS.unix=symlink"@ {
                let filetype = FileTypeView::Symlink { target: line_name(line) };
                Ok(AfterMlstView::Done(seq![file_entry(listing.id(), about, filetype)]))
            } else {
                Err(unknown_type(kind))
            },
        },
    }
}

/// What comes of the reply to `MLSD`: the directory with the identifiers of the files in it, and
/// behind it those files.
pub open spec fn mlsd_step(
    listing: ListingView,
    about: AttributesView,
    separator: char,
    reply: Result<Seq<Seq<char>>, FtpFailure>,
) -> Result<Seq<FileMetadataView>, ErrorView> {
    match reply {
        Err(failure) => Err(ErrorView::Ftp(failure.error())),
        Ok(lines) => match child_entries(listing.path, separator, listing.host, lines) {
            Err(error) => Err(error),
            Ok(entries) => {
                let filetype = FileTypeView::Directory { children: entry_ids(entries) };
                Ok(seq![file_entry(listing.id(), about, filetype)] + entries)
            },
        },
    }
}

/// The error that comes of a failed `LIST`.
pub open spec fn list_failure(failure: FtpFailure) -> ErrorView {
    if failure.unknown_command() {
        ErrorView::Other("server supports neither LIST nor MLSD command"@)
    } else {
        ErrorView::Ftp(failure.error())
    }
}

/// Whether `r` can come of the lines of a reply to `LIST`: whatever is read of them, the files are
/// those that it describes.
pub open spec fn is_list_outcome(
    listing: ListingView,
    lines: Seq<Seq<char>>,
    r: Result<Seq<FileMetadataView>, ErrorView>,
) -> bool {
    exists|parsed: Seq<Result<ListedFileView, ParseError>>|
        {
            &&& #[trigger] reads(lines, parsed)
            &&& r == listed_entries(parsed, listing.host)
            &&& r is Ok && is_plain_place(listing.host) && names_take_authority(
                parsed,
                listing.host,
            ) ==> all_in_place(r->Ok_0, listing.host)
        }
}

/// Begins to list the files at `path` on the host with the URL `host`. The URL must be absolute
/// and the path a relative reference.
pub fn list(path: &str, host: &str) -> (r: Result<Listing, Error>)
    ensures
        match r {
            Ok(listing) => {
                &&& is_absolute_iri(host@)
                &&& is_relative_reference(path@)
                &&& listing@ == (ListingView { path: path@, host: host@ })
            },
            Err(error) => {
                &&& !is_absolute_iri(host@) || !is_relative_reference(path@)
                &&& error@ == ErrorView::Url(resolution_error(path@, host@))
                &&& !is_absolute_iri(host@) ==> error == Error::Url(absolute_error(host@))
                &&& is_absolute_iri(host@) ==> error == Error::Url(relative_error(path@))
            },
        },
{
    match resolve(path, host) {
        Ok(id) => Ok(Listing { path: path.to_owned(), host: host.to_owned(), id }),
        Err(error) => Err(Error::from(error)),
    }
}

impl Listing {
    /// Takes the reply to `MLST`.
    pub fn on_mlst(self, reply: Result<String, FtpFailure>) -> (r: Result<AfterMlst, Error>)
        ensures
            match r {
                Ok(after) => {
                    &&& mlst_step(self@, line_reply(reply)) == Ok::<AfterMlstView, ErrorView>(
                        after@,
                    )
                    &&& after@ matches AfterMlstView::Done(entries) ==> without_owner(entries) && (
                    takes_authority(self@.path, self@.host) ==> all_in_place(entries, self@.host))
                    &&& after@ matches AfterMlstView::AskMlsd { about, .. } ==> about.owner is None
                        && about.group is None
                },
                Err(error) => mlst_step(self@, line_reply(reply)) == Err::<
                    AfterMlstView,
                    ErrorView,
                >(error@),
            },
    {
        proof {
            use_type_invariant(&self);
        }
        let line = match reply {
            Ok(line) => line,
            Err(failure) => {
                if failure.is_unknown_command() {
                    return Ok(AfterMlst::AskList(PlainListing { listing: self }));
                }
                return Err(Error::from(failure.into_error()));
            },
        };
        let (facts, name) = parse_facts(line.as_str());
        let (kind, about) = match describe(&facts) {
            Ok(description) => description,
            Err(error) => return Err(error),
        };
        let filetype = if same_text(kind.as_str(), "file") {
            FileType::Regular
        } else if same_text(kind.as_str(), "dir") {
            return Ok(AfterMlst::AskMlsd(DirectoryListing { listing: self, about }));
        } else if same_text(kind.as_str(), "OS.unix=symlink") {
            FileType::Symlink { target: name }
        } else {
            return Err(unknown_type_error(kind.as_str()));
        };
        let mut entries: Vec<FileMetadata> = Vec::new();
        let ghost entry = file_entry(self@.id(), about@, filetype@);
        entries.push(FileMetadata::new(self.id, about, filetype));
        assert(entry_views(entries@) == seq![entry]);
        Ok(AfterMlst::Done(entries))
    }
}

impl DirectoryListing {
    /// Takes the reply to `MLSD`. The files' paths are put together with `separator`, which is the
    /// one for the parts of paths on the machine.
    pub fn on_mlsd(self, reply: Result<Vec<String>, FtpFailure>, separator: char) -> (r: Result<
        Vec<FileMetadata>,
        Error,
    >)
        ensures
            match r {
                Ok(entries) => {
                    &&& mlsd_step(self.listing(), self.about(), separator, lines_reply(reply)) == Ok::<
                        Seq<FileMetadataView>,
                        ErrorView,
                    >(entry_views(entries@))
                    &&& without_owner(entry_views(entries@))
                    &&& is_plain_place(self.listing().host) && takes_authority(
                        self.listing().path,
                        self.listing().host,
                    ) && paths_take_authority(
                        self.listing().path,
                        separator,
                        self.listing().host,
                        lines_reply(reply)->Ok_0,
                    ) ==> all_in_place(entry_views(entries@), self.listing().host)
                },
                Err(error) => mlsd_step(self.listing(), self.about(), separator, lines_reply(reply)) == Err::<
                    Seq<FileMetadataView>,
                    ErrorView,
                >(error@),
            },
    {
        proof {
            use_type_invariant(&self);
            use_type_invariant(&self.listing);
        }
        let lines = match reply {
            Ok(lines) => lines,
            Err(failure) => return Err(Error::from(failure.into_error())),
        };
        let (children, mut rest) = match entries_of_children(
            self.listing.path.as_str(),
            separator,
            self.listing.host.as_str(),
            &lines,
        ) {
            Ok(found) => found,
            Err(error) => return Err(error),
        };
        let ghost below = entry_views(rest@);
        let filetype = FileType::Directory { children };
        let ghost entry = file_entry(self.listing@.id(), self.about@, filetype@);
        let mut entries: Vec<FileMetadata> = Vec::new();
        entries.push(FileMetadata::new(self.listing.id, self.about, filetype));
        entries.append(&mut rest);
        assert(entry_views(entries@) == seq![entry] + below);
        Ok(entries)
    }
}

impl PlainListing {
    /// Takes the reply to `LIST`. A line may leave out the year of a time, so what is read of the
    /// lines depends on when they are read.
    pub fn on_list(self, reply: Result<Vec<String>, FtpFailure>) -> (r: Result<
        Vec<FileMetadata>,
        Error,
    >)
        ensures
            match (lines_reply(reply), r) {
                (Err(failure), Err(error)) => error@ == list_failure(failure),
                (Err(_), Ok(_)) => false,
                (Ok(lines), Ok(entries)) => is_list_outcome(
                    self.listing(),
                    lines,
                    Ok(entry_views(entries@)),
                ),
                (Ok(lines), Err(error)) => is_list_outcome(self.listing(), lines, Err(error@)),
            },
    {
        let lines = match reply {
            Ok(lines) => lines,
            Err(failure) => {
                if failure.is_unknown_command() {
                    return Err(Error::Other("server supports neither LIST nor MLSD command"));
                }
                return Err(Error::from(failure.into_error()));
            },
        };
        let parsed = parse_list_lines(&lines);
        entries_of_listed(parsed, self.listing.host.as_str())
    }
}

/// A listed directory names as its children exactly the files that follow it, in their order.
pub proof fn law_children_follow(
    listing: ListingView,
    about: AttributesView,
    separator: char,
    lines: Seq<Seq<char>>,
)
    requires
        mlsd_step(listing, about, separator, Ok(lines)) is Ok,
    ensures
        ({
            let entries = mlsd_step(listing, about, separator, Ok(lines))->Ok_0;
            &&& entries.len() > 0
            &&& entries[0].id == Some(resolved(listing.path, listing.host))
            &&& entries[0].about == about
            &&& entries.skip(1) =~= child_entries(
                listing.path,
                separator,
                listing.host,
                lines,
            )->Ok_0
            &&& entries[0].filetype matches FileTypeView::Directory { children }
            &&& children.len() == entries.len() - 1
            &&& forall|i: int|
                0 <= i < children.len() ==> entries[i + 1].id == Some(#[trigger] children[i])
        }),
{
    law_one_entry_per_child(listing.path, separator, listing.host, lines);
    let below = child_entries(listing.path, separator, listing.host, lines)->Ok_0;
    let entries = mlsd_step(listing, about, separator, Ok(lines))->Ok_0;
    let children = entry_ids(below);
    assert(entries[0].filetype == (FileTypeView::Directory { children }));
    assert forall|i: int| 0 <= i < children.len() implies entries[i + 1].id == Some(
        #[trigger] children[i],
    ) by {
        let line = child_lines(lines)[i];
        law_child_id(listing.path, separator, listing.host, line);
        assert(entries[i + 1] == below[i]);
    }
}

/// A server that knows neither `MLST` nor `LIST` is asked both and then given up; any other failure
/// ends a listing at once and is handed on.
pub proof fn law_failures(
    listing: ListingView,
    about: AttributesView,
    separator: char,
    mlst: FtpFailure,
    list: FtpFailure,
)
    ensures
        response_status(mlst.error()) == Some(500u32) ==> mlst_step(listing, Err(mlst)) == Ok::<AfterMlstView, ErrorView>(
            AfterMlstView::AskList { listing },
        ),
        response_status(mlst.error()) != Some(500u32) ==> mlst_step(listing, Err(mlst)) == Err::<
            AfterMlstView,
            ErrorView,
        >(ErrorView::Ftp(mlst.error())),
        mlsd_step(listing, about, separator, Err(mlst)) == Err::<Seq<FileMetadataView>, ErrorView>(
            ErrorView::Ftp(mlst.error()),
        ),
        response_status(list.error()) == Some(500u32) ==> list_failure(list) == ErrorView::Other(
            "server supports neither LIST nor MLSD command"@,
        ),
        response_status(list.error()) != Some(500u32) ==> list_failure(list) == ErrorView::Ftp(list.error()),
{
}

/// What a listing that is done after `MLST` or `MLSD` tells first is what was asked for, under the
/// identifier of the path.
pub proof fn law_first_entry(
    listing: ListingView,
    line: Seq<char>,
    separator: char,
    lines: Result<Seq<Seq<char>>, FtpFailure>,
)
    ensures
        match mlst_step(listing, Ok(line)) {
            Ok(AfterMlstView::Done(entries)) => entries.len() == 1 && entries[0].id == Some(
                resolved(listing.path, listing.host),
            ),
            Ok(AfterMlstView::AskMlsd { listing: next, about }) => {
                &&& next == listing
                &&& mlsd_step(next, about, separator, lines) matches Ok(entries) ==> entries.len() > 0
                    && entries[0].id == Some(resolved(listing.path, listing.host))
                    && entries[0].about == about
            },
            Ok(AfterMlstView::AskList { .. }) => false,
            Err(_) => true,
        },
{
}

/// What comes of a reply to `LIST` whose lines read the same in every year is determined by the
/// lines.
pub proof fn law_list_is_determined(
    listing: ListingView,
    lines: Seq<Seq<char>>,
    now: Result<Seq<FileMetadataView>, ErrorView>,
    later: Result<Seq<FileMetadataView>, ErrorView>,
)
    requires
        forall|i: int| 0 <= i < lines.len() ==> is_timeless(#[trigger] lines[i]),
        is_list_outcome(listing, lines, now),
        is_list_outcome(listing, lines, later),
    ensures
        now == later,
{
    let a = choose|parsed: Seq<Result<ListedFileView, ParseError>>| #[trigger]
        reads(lines, parsed) && now == listed_entries(parsed, listing.host);
    let b = choose|parsed: Seq<Result<ListedFileView, ParseError>>| #[trigger]
        reads(lines, parsed) && later == listed_entries(parsed, listing.host);
    law_reading(lines, a, b);
}

/// The reply to `MLST` is told as its facts describe what is listed: a regular file, or a link to
/// the name in the reply, is all there is; for a directory `MLSD` is asked. Facts that describe
/// nothing, and a type that is none of these, are errors.
pub proof fn law_mlst_reply(listing: ListingView, line: Seq<char>)
    ensures
        ({
            let facts = line_facts(line);
            let kind = facts["type"@];
            match mlst_step(listing, Ok(line)) {
                Ok(AfterMlstView::Done(entries)) => {
                    &&& entries.len() == 1
                    &&& entries[0].id == Some(resolved(listing.path, listing.host))
                    &&& described(facts) == Ok::<(Seq<char>, AttributesView), ErrorView>(
                        (kind, entries[0].about),
                    )
                    &&& match entries[0].filetype {
                        FileTypeView::Regular => kind == "file"@,
                        FileTypeView::Directory { .. } => false,
                        FileTypeView::Symlink { target } => kind == "OS.unix=symlink"@ && target
                            == line_name(line),
                    }
                },
                Ok(AfterMlstView::AskMlsd { listing: next, about }) => {
                    &&& next.path == listing.path && next.host == listing.host
                    &&& kind == "dir"@
                    &&& described(facts) == Ok::<(Seq<char>, AttributesView), ErrorView>(
                        (kind, about),
                    )
                },
                Ok(AfterMlstView::AskList { .. }) => false,
                Err(error) => match described(facts) {
                    Err(wrong) => error == wrong,
                    Ok(_) => {
                        &&& kind != "file"@ && kind != "dir"@ && kind != "OS.unix=symlink"@
                        &&& error == ErrorView::MlstParse("unknown file type: "@ + kind)
                    },
                },
            }
        }),
{
}

/// The reply to `MLSD` is refused if and only if the lines for the files in the directory are, and
/// with their error.
pub proof fn law_mlsd_errors(
    listing: ListingView,
    about: AttributesView,
    separator: char,
    lines: Seq<Seq<char>>,
)
    ensures
        match child_entries(listing.path, separator, listing.host, lines) {
            Ok(_) => mlsd_step(listing, about, separator, Ok(lines)) is Ok,
            Err(error) => mlsd_step(listing, about, separator, Ok(lines)) == Err::<
                Seq<FileMetadataView>,
                ErrorView,
            >(error),
        },
{
}

/// The reply to `LIST` gives one entry for each of its lines, in their order: that of the file that
/// the line describes when it is read in some year.
pub proof fn law_list_entries(
    listing: ListingView,
    lines: Seq<Seq<char>>,
    entries: Seq<FileMetadataView>,
    i: int,
)
    requires
        is_list_outcome(listing, lines, Ok(entries)),
    ensures
        entries.len() == lines.len(),
        0 <= i < lines.len() ==> exists|year: int| #[trigger]
            listed_in_year(lines[i], year) is Ok && listed_entry(
                listed_in_year(lines[i], year)->Ok_0,
                listing.host,
            ) == Ok::<FileMetadataView, ErrorView>(entries[i]),
{
    let parsed = choose|parsed: Seq<Result<ListedFileView, ParseError>>| #[trigger]
        reads(lines, parsed) && Ok::<Seq<FileMetadataView>, ErrorView>(entries) == listed_entries(
            parsed,
            listing.host,
        );
    law_one_entry_per_line(parsed, listing.host);
    if 0 <= i < lines.len() {
        assert(is_outcome_of(parsed[i], lines[i]));
        assert(listed_line(parsed[i], listing.host) == Ok::<FileMetadataView, ErrorView>(
            entries[i],
        ));
    }
}

/// An error that the reply to `LIST` gives is that of one of its lines: the error with which the
/// line was not read in some year, or that of the file that it describes.
pub proof fn law_list_errors(listing: ListingView, lines: Seq<Seq<char>>, error: ErrorView)
    requires
        is_list_outcome(listing, lines, Err(error)),
    ensures
        exists|i: int, year: int|
            0 <= i < lines.len() && match #[trigger] listed_in_year(lines[i], year) {
                Err(wrong) => error == ErrorView::ListParse(wrong),
                Ok(file) => listed_entry(file, listing.host) == Err::<FileMetadataView, ErrorView>(
                    error,
                ),
            },
{
    let parsed = choose|parsed: Seq<Result<ListedFileView, ParseError>>| #[trigger]
        reads(lines, parsed) && Err::<Seq<FileMetadataView>, ErrorView>(error) == listed_entries(
            parsed,
            listing.host,
        );
    let i = lemma_bad_line(parsed, listing.host);
    assert(is_outcome_of(parsed[i], lines[i]));
    let year = choose|year: int| parsed[i] == #[trigger] listed_in_year(lines[i], year);
    assert(listed_line(parsed[i], listing.host) == Err::<FileMetadataView, ErrorView>(error));
    assert(match listed_in_year(lines[i], year) {
        Err(wrong) => error == ErrorView::ListParse(wrong),
        Ok(file) => listed_entry(file, listing.host) == Err::<FileMetadataView, ErrorView>(error),
    });
}

/// The place of a line that gives the error of all lines.
proof fn lemma_bad_line(
    parsed: Seq<Result<ListedFileView, ParseError>>,
    host: Seq<char>,
) -> (bad: int)
    requires
        listed_entries(parsed, host) is Err,
    ensures
        0 <= bad < parsed.len(),
        listed_line(parsed[bad], host) == Err::<FileMetadataView, ErrorView>(
            listed_entries(parsed, host)->Err_0,
        ),
    decreases parsed.len(),
{
    let before = parsed.drop_last();
    if listed_entries(before, host) is Err {
        let bad = lemma_bad_line(before, host);
        assert(before[bad] == parsed[bad]);
        bad
    } else {
        parsed.len() - 1
    }
}

/// Replies as text hold the lines of the replies, each at its place and as it stands, and failures
/// as they are.
pub proof fn law_replies(line: Result<String, FtpFailure>, lines: Result<Vec<String>, FtpFailure>)
    ensures
        match line {
            Ok(text) => line_reply(line) == Ok::<Seq<char>, FtpFailure>(text@),
            Err(failure) => line_reply(line) == Err::<Seq<char>, FtpFailure>(failure),
        },
        match lines {
            Ok(list) => lines_reply(lines) is Ok && lines_reply(lines)->Ok_0.len() == list@.len()
                && forall|i: int|
                0 <= i < list@.len() ==> lines_reply(lines)->Ok_0[i] == (#[trigger] list@[i])@,
            Err(failure) => lines_reply(lines) == Err::<Seq<Seq<char>>, FtpFailure>(failure),
        },
{
}

/// How a listing goes on is told as it is.
pub proof fn law_after_mlst(after: AfterMlst)
    ensures
        match after {
            AfterMlst::Done(entries) => after@ == AfterMlstView::Done(entry_views(entries@)),
            AfterMlst::AskMlsd(next) => after@ == (AfterMlstView::AskMlsd {
                listing: next.listing(),
                about: next.about(),
            }),
            AfterMlst::AskList(next) => after@ == (AfterMlstView::AskList {
                listing: next.listing(),
            }),
        },
{
}

} // verus!
