//! The API description files of a source tarball.
//!
//! A release of the search engine is published as a gzip-compressed tar
//! archive.  Somewhere in it lie the JSON files that describe the REST API,
//! one per endpoint.  This module picks them out of the bytes of such an
//! archive; fetching the archive and writing the files is left to the
//! caller.
//!
//! The members of the archive are taken in order.  A member whose path the
//! glob for API descriptions matches becomes a file, named by the last part
//! of its path; such a path always has one.  What could be gathered is
//! handed out together with the reason for which the walk ended, so that a
//! damaged archive still gives the files that come before the damage.
//!
//! Two things are done by other crates and taken on trust here: reading the
//! compressed archive (`flate2` and `tar`) and matching a path against a glob
//! (`globset`).  What the archive holds and whether a glob is accepted are
//! given names below, and the contracts of this module speak of those names.
//! Which paths the one glob of this module matches is written out, as
//! `is_api_path`.
//!
//! Whether a backslash separates the parts of a path depends on the system.
//! The walk asks the system, goes by its answer, and hands the answer out
//! with what it gathered.  Where a backslash is no separator it is a byte
//! like any other.  Where it is one, drive letters and the other prefixes
//! that such systems know are still not told apart from names.

use std::io::Read;
use vstd::prelude::*;
use vstd::string::*;
use crate::text::{ascii, bytes_of, copy, occurs_at, push_all, slice_copy};

verus! {

/// The error type of `std::io`, carried through as it is.
#[verifier::external_type_specification]
#[verifier::external_body]
pub struct ExIoError(std::io::Error);

/// The error type of `globset`, carried through as it is.
#[verifier::external_type_specification]
#[verifier::external_body]
pub struct ExGlobError(globset::Error);

/// One member of an archive: its path and its contents.
#[derive(Debug)]
pub struct ArchiveEntry {
    pub path: Vec<u8>,
    pub contents: Vec<u8>,
}

/// An archive member, as plain values.
pub struct EntryView {
    pub path: Seq<u8>,
    pub contents: Seq<u8>,
}

impl View for ArchiveEntry {
    type V = EntryView;

    open spec fn view(&self) -> EntryView {
        EntryView { path: self.path@, contents: self.contents@ }
    }
}

/// The members of `entries`, as plain values.
pub open spec fn entry_views(entries: Seq<ArchiveEntry>) -> Seq<EntryView> {
    Seq::new(entries.len(), |i: int| entries[i]@)
}

/// What can be read from an archive: the members in order, up to the end of
/// the archive or to the first failure to read, and whether the end was
/// reached without one.  A member that the end of the data cuts short is
/// still listed, with the bytes that were there: the failure shows only at
/// the member that would follow.
pub struct Listing {
    pub members: Seq<EntryView>,
    pub complete: bool,
}

/// What `tar` reads from the gzip stream `data` as `flate2` decompresses it:
/// the members in the order of the archive, up to the end of the archive or
/// to the first failure to read.
pub uninterp spec fn archive_listing(data: Seq<u8>) -> Listing;

/// Whether the glob `pattern` matches `path`, taken byte for byte as it is,
/// according to `globset`, if `pattern` is a glob at all.
pub uninterp spec fn glob_match(pattern: Seq<char>, path: Seq<u8>) -> Option<bool>;

/// Whether `path` holds no backslash.
pub open spec fn slashes_only(path: Seq<u8>) -> bool {
    forall|i: int| 0 <= i < path.len() ==> #[trigger] path[i] != 92
}

/// A pattern of at most 256 characters without a backslash.
pub open spec fn plain_pattern(pattern: Seq<char>) -> bool {
    pattern.len() <= 256 && forall|i: int| 0 <= i < pattern.len() ==> #[trigger] pattern[i] != '\\'
}

/// Hands `flate2::read::GzDecoder::new` of `data` to `tar::Archive::new` and
/// walks `Archive::entries`, taking from each entry its `path_bytes` and its
/// contents, read to their end, until the archive ends or a read fails.  The
/// decoder is read only as far as the archive reader asks.  The contract
/// claims only that the outcome is the one named `archive_listing`: the
/// members read, and an error exactly if the walk ended in one.
#[verifier::external_body]
fn list_archive(data: &[u8]) -> (r: (Vec<ArchiveEntry>, Option<std::io::Error>))
    ensures
        entry_views(r.0@) == archive_listing(data@).members,
        r.1.is_none() == archive_listing(data@).complete,
{
    let mut out = Vec::new();
    let mut archive = tar::Archive::new(flate2::read::GzDecoder::new(data));
    let mut walk = || -> std::io::Result<()> {
        for entry in archive.entries()? {
            let mut entry = entry?;
            let mut contents = Vec::new();
            entry.read_to_end(&mut contents)?;
            out.push(ArchiveEntry { path: entry.path_bytes().into_owned(), contents });
        }
        Ok(())
    };
    let failure = walk().err();
    (out, failure)
}

/// Calls `std::path::is_separator` on a backslash, then `globset::Glob::new`
/// on `pattern`, `Glob::compile_matcher` on the glob and
/// `GlobMatcher::is_match_candidate` on the candidate that
/// `Candidate::from_bytes` makes of `path`.
///
/// The first part of the result is what the system said of the backslash.
/// Where it separates, `globset` rewrites each backslash of the path to a
/// slash before it matches; where it does not, the path is matched as it
/// is.  So the second part is the outcome named `glob_match` for the path
/// in the form that the first part calls for.
///
/// Of the one glob that this module uses the contract says more, as
/// `globset` turns it into a regular expression: `**/` at the start stands
/// for nothing, for one slash, or for anything that ends in a slash; `*`
/// stands for any bytes; every other character stands for itself.  If that
/// glob is accepted, it matches exactly the paths of `is_api_path`.
///
/// Two kinds of pattern are left out.  `compile_matcher` panics when the
/// automaton of a glob outgrows a size limit; patterns of at most 256
/// characters stay far below it.  A backslash in a pattern is read as an
/// escape on some systems and as a character on others.
#[verifier::external_body]
fn glob_is_match(pattern: &str, path: &[u8]) -> (r: (bool, Result<bool, globset::Error>))
    requires
        plain_pattern(pattern@),
    ensures
        match r.1 {
            Ok(matched) => glob_match(pattern@, matched_path(path@, r.0)) == Some(matched),
            Err(_) => glob_match(pattern@, matched_path(path@, r.0)).is_none(),
        },
        pattern@ == spec_glob() ==> (r.1 matches Ok(matched) ==> matched == is_api_path(
            matched_path(path@, r.0),
        )),
{
    let separates = std::path::is_separator('\\');
    match globset::Glob::new(pattern) {
        Ok(glob) => {
            let matcher = glob.compile_matcher();
            (separates, Ok(matcher.is_match_candidate(&globset::Candidate::from_bytes(path))))
        },
        Err(e) => (separates, Err(e)),
    }
}

/// One API description: the name of its file and the JSON text.
#[derive(Debug)]
pub struct SpecFile {
    pub name: Vec<u8>,
    pub contents: Vec<u8>,
}

/// An API description, as plain values.
pub struct FileView {
    pub name: Seq<u8>,
    pub contents: Seq<u8>,
}

impl View for SpecFile {
    type V = FileView;

    open spec fn view(&self) -> FileView {
        FileView { name: self.name@, contents: self.contents@ }
    }
}

/// The files of `files`, as plain values.
pub open spec fn file_views(files: Seq<SpecFile>) -> Seq<FileView> {
    Seq::new(files.len(), |i: int| files[i]@)
}

/// Why the walk through an archive ended.
#[derive(Debug)]
pub enum Stop {
    /// The archive was read to its end.
    Complete,
    /// The archive could not be read further.
    Read(std::io::Error),
    /// The glob for the API descriptions was refused.
    Pattern(globset::Error),
}

/// The end of a walk, as plain values.
pub enum StopView {
    Complete,
    Read,
    Pattern,
}

impl View for Stop {
    type V = StopView;

    open spec fn view(&self) -> StopView {
        match self {
            Stop::Complete => StopView::Complete,
            Stop::Read(_) => StopView::Read,
            Stop::Pattern(_) => StopView::Pattern,
        }
    }
}

/// What a walk through an archive gave: the files gathered until it ended,
/// in the order of the archive, why it ended, and whether a backslash
/// separated the parts of a path on the system that walked.
#[derive(Debug)]
pub struct Harvest {
    pub files: Vec<SpecFile>,
    pub stop: Stop,
    pub backslash_separates: bool,
}

/// A harvest, as plain values.
pub struct HarvestView {
    pub files: Seq<FileView>,
    pub stop: StopView,
    pub backslash_separates: bool,
}

impl View for Harvest {
    type V = HarvestView;

    open spec fn view(&self) -> HarvestView {
        HarvestView {
            files: file_views(self.files@),
            stop: self.stop@,
            backslash_separates: self.backslash_separates,
        }
    }
}

/// The directory of the API descriptions, from the root of the sources.
pub open spec fn api_directory() -> Seq<u8> {
    ascii("rest-api-spec/src/main/resources/rest-api-spec/api/"@)
}

/// The ending of the name of an API description.
pub open spec fn json_suffix() -> Seq<u8> {
    ascii(".json"@)
}

/// Whether a part of `path` starts at `i`: at the start or behind a slash.
pub open spec fn starts_part(path: Seq<u8>, i: int) -> bool {
    i == 0 || (0 < i <= path.len() && path[i - 1] == 47)
}

/// Whether `path`, with slashes for separators, is that of an API
/// description: it ends in `.json`, and before that ending it holds the
/// directory of the API descriptions, at its start or behind a slash.
pub open spec fn is_api_path(path: Seq<u8>) -> bool {
    &&& occurs_at(path, json_suffix(), path.len() - json_suffix().len())
    &&& exists|i: int|
        starts_part(path, i) && #[trigger] occurs_at(path, api_directory(), i) && i
            + api_directory().len() + json_suffix().len() <= path.len()
}

/// The glob that the paths of the API descriptions match.
pub open spec fn spec_glob() -> Seq<char> {
    "**/rest-api-spec/src/main/resources/rest-api-spec/api/*.json"@
}

/// Whether `b` separates the parts of a path: a slash always, a backslash
/// where the system has it so.
pub open spec fn is_separator(b: u8, backslash_separates: bool) -> bool {
    b == 47 || (backslash_separates && b == 92)
}

/// `path` with a slash for every backslash.
pub open spec fn normalized(path: Seq<u8>) -> Seq<u8> {
    Seq::new(path.len(), |i: int| if path[i] == 92 {
        47u8
    } else {
        path[i]
    })
}

/// The form in which a path is matched: as it is, or with slashes only
/// where a backslash separates.
pub open spec fn matched_path(path: Seq<u8>, backslash_separates: bool) -> Seq<u8> {
    if backslash_separates {
        normalized(path)
    } else {
        path
    }
}

/// The end of the first `end` bytes of `path` once the separators that
/// close them are dropped.
pub open spec fn trimmed_end(path: Seq<u8>, end: int, backslash_separates: bool) -> int
    decreases end,
{
    if 0 < end <= path.len() && is_separator(path[end - 1], backslash_separates) {
        trimmed_end(path, end - 1, backslash_separates)
    } else {
        end
    }
}

/// The start of the part of `path` that ends at `end`.
pub open spec fn component_start(path: Seq<u8>, end: int, backslash_separates: bool) -> int
    decreases end,
{
    if 0 < end <= path.len() && !is_separator(path[end - 1], backslash_separates) {
        component_start(path, end - 1, backslash_separates)
    } else {
        end
    }
}

/// The file name of the first `end` bytes of `path`.
pub open spec fn file_name_within(path: Seq<u8>, end: int, backslash_separates: bool) -> Option<
    Seq<u8>,
>
    decreases end,
{
    let stop = trimmed_end(path, end, backslash_separates);
    let start = component_start(path, stop, backslash_separates);
    if !(0 <= start < stop <= end <= path.len()) {
        None
    } else if stop - start == 1 && path[start] == 46 {
        if start == 0 {
            None
        } else {
            file_name_within(path, start, backslash_separates)
        }
    } else if stop - start == 2 && path[start] == 46 && path[start + 1] == 46 {
        None
    } else {
        Some(path.subrange(start, stop))
    }
}

/// The file name of `path`: its last part, where closing separators and
/// parts that are `.` alone do not count, unless a `.` is all there is
/// before them.  A path has none if nothing is left, or if what is left
/// ends in `..`.
pub open spec fn file_name_of(path: Seq<u8>, backslash_separates: bool) -> Option<Seq<u8>> {
    file_name_within(path, path.len() as int, backslash_separates)
}

/// Whether `matched` marks the member at position `i`.
pub open spec fn is_marked(matched: Seq<bool>, i: int) -> bool {
    0 <= i < matched.len() && matched[i]
}

/// Whether the member at position `i` is marked and has no file name.
pub open spec fn nameless(
    members: Seq<EntryView>,
    matched: Seq<bool>,
    backslash_separates: bool,
    i: int,
) -> bool {
    is_marked(matched, i) && file_name_of(members[i].path, backslash_separates).is_none()
}

/// The first member at or after `from` that is marked and has no file name.
pub open spec fn first_nameless(
    members: Seq<EntryView>,
    matched: Seq<bool>,
    backslash_separates: bool,
    from: int,
) -> Option<int>
    decreases members.len() - from,
{
    if from < 0 || from >= members.len() {
        None
    } else if nameless(members, matched, backslash_separates, from) {
        Some(from)
    } else {
        first_nameless(members, matched, backslash_separates, from + 1)
    }
}

/// The files of those among the first `n` members that are marked and have
/// a file name, in order: each named by the file name of its path, with its
/// contents.
pub open spec fn gathered(
    members: Seq<EntryView>,
    matched: Seq<bool>,
    backslash_separates: bool,
    n: int,
) -> Seq<FileView>
    decreases n,
{
    if n <= 0 || n > members.len() {
        Seq::empty()
    } else {
        let before = gathered(members, matched, backslash_separates, n - 1);
        match file_name_of(members[n - 1].path, backslash_separates) {
            Some(name) => if is_marked(matched, n - 1) {
                before.push(FileView { name, contents: members[n - 1].contents })
            } else {
                before
            },
            None => before,
        }
    }
}

/// The first member at or after `from` for whose path `pattern` is no glob.
pub open spec fn first_refused(
    pattern: Seq<char>,
    members: Seq<EntryView>,
    backslash_separates: bool,
    from: int,
) -> Option<int>
    decreases members.len() - from,
{
    if from < 0 || from >= members.len() {
        None
    } else if glob_match(pattern, matched_path(members[from].path, backslash_separates)).is_none() {
        Some(from)
    } else {
        first_refused(pattern, members, backslash_separates, from + 1)
    }
}

/// For each of the first `n` members, whether its path is that of an API
/// description.
pub open spec fn marks(members: Seq<EntryView>, backslash_separates: bool, n: int) -> Seq<bool> {
    Seq::new(n as nat, |i: int| is_api_path(matched_path(members[i].path, backslash_separates)))
}

/// What the archive `data` gives on a system where a backslash separates or
/// does not, as `backslash_separates` says: the files of its members whose
/// path is that of an API description, in the order of the archive, each
/// named by the file name of its path.  Should the glob be refused for the
/// path of a member, the members from that one on are left out.
pub open spec fn extraction_of(data: Seq<u8>, backslash_separates: bool) -> HarvestView {
    let listing = archive_listing(data);
    let all = listing.members.len() as int;
    match first_refused(spec_glob(), listing.members, backslash_separates, 0) {
        Some(k) => HarvestView {
            files: gathered(
                listing.members,
                marks(listing.members, backslash_separates, k),
                backslash_separates,
                all,
            ),
            stop: StopView::Pattern,
            backslash_separates,
        },
        None => HarvestView {
            files: gathered(
                listing.members,
                marks(listing.members, backslash_separates, all),
                backslash_separates,
                all,
            ),
            stop: if listing.complete {
                StopView::Complete
            } else {
                StopView::Read
            },
            backslash_separates,
        },
    }
}

/// The address of the tarball of `branch`.
pub open spec fn tarball_url_of(branch: Seq<u8>) -> Seq<u8> {
    ascii("https://api.github.com/repos/elastic/elasticsearch/tarball/"@) + branch
}

/// The address from which the tarball of `branch` is fetched.
pub fn tarball_url(branch: &[u8]) -> (r: Vec<u8>)
    ensures
        r@ == tarball_url_of(branch@),
{
    proof {
        reveal_strlit("https://api.github.com/repos/elastic/elasticsearch/tarball/");
    }
    let mut out = bytes_of("https://api.github.com/repos/elastic/elasticsearch/tarball/");
    push_all(&mut out, branch);
    out
}

/// The `User-Agent` with which the program `package` fetches a tarball.
pub fn user_agent(package: &[u8]) -> (r: Vec<u8>)
    ensures
        r@ == ascii("opensearch-rs/"@) + package@,
{
    proof {
        reveal_strlit("opensearch-rs/");
    }
    let mut out = bytes_of("opensearch-rs/");
    push_all(&mut out, package);
    out
}

/// `path` with a slash for every backslash.
pub fn normalize(path: &[u8]) -> (r: Vec<u8>)
    ensures
        r@ == normalized(path@),
        slashes_only(r@),
{
    let mut out: Vec<u8> = Vec::new();
    let mut i: usize = 0;
    while i < path.len()
        invariant
            i <= path.len(),
            out@.len() == i,
            forall|j: int| 0 <= j < i ==> out@[j] == normalized(path@)[j],
        decreases path.len() - i,
    {
        let b: u8 = path[i];
        out.push(if b == 92 {
            47
        } else {
            b
        });
        i += 1;
    }
    assert(out@ =~= normalized(path@));
    out
}

/// The end of the first `end` bytes of `path` without closing separators.
fn end_of_name(path: &[u8], end: usize, backslash_separates: bool) -> (r: usize)
    requires
        end <= path.len(),
    ensures
        r == trimmed_end(path@, end as int, backslash_separates),
        r <= end,
{
    let mut at: usize = end;
    while at > 0 && (path[at - 1] == 47 || (backslash_separates && path[at - 1] == 92))
        invariant
            at <= end <= path.len(),
            trimmed_end(path@, end as int, backslash_separates) == trimmed_end(
                path@,
                at as int,
                backslash_separates,
            ),
        decreases at,
    {
        at -= 1;
    }
    at
}

/// The start of the part of `path` that ends at `end`.
fn start_of_name(path: &[u8], end: usize, backslash_separates: bool) -> (r: usize)
    requires
        end <= path.len(),
    ensures
        r == component_start(path@, end as int, backslash_separates),
        r <= end,
{
    let mut at: usize = end;
    while at > 0 && !(path[at - 1] == 47 || (backslash_separates && path[at - 1] == 92))
        invariant
            at <= end <= path.len(),
            component_start(path@, end as int, backslash_separates) == component_start(
                path@,
                at as int,
                backslash_separates,
            ),
        decreases at,
    {
        at -= 1;
    }
    at
}

/// The file name of `path`, if it has one.
pub fn file_name(path: &[u8], backslash_separates: bool) -> (r: Option<Vec<u8>>)
    ensures
        match r {
            Some(name) => file_name_of(path@, backslash_separates) == Some(name@),
            None => file_name_of(path@, backslash_separates).is_none(),
        },
{
    let mut end: usize = path.len();
    loop
        invariant
            end <= path.len(),
            file_name_of(path@, backslash_separates) == file_name_within(
                path@,
                end as int,
                backslash_separates,
            ),
        decreases end,
    {
        let stop = end_of_name(path, end, backslash_separates);
        let start = start_of_name(path, stop, backslash_separates);
        if start == stop {
            return None;
        }
        if stop - start == 1 && path[start] == 46 {
            if start == 0 {
                return None;
            }
            end = start;
        } else if stop - start == 2 && path[start] == 46 && path[start + 1] == 46 {
            return None;
        } else {
            return Some(slice_copy(path, start, stop));
        }
    }
}

/// The part of a path that ends at `stop` holds no separator, and a
/// separator stands before it unless the path starts there.
proof fn lemma_component(path: Seq<u8>, stop: int, backslash_separates: bool)
    requires
        0 <= stop <= path.len(),
    ensures
        ({
            let start = component_start(path, stop, backslash_separates);
            &&& 0 <= start <= stop
            &&& forall|i: int| start <= i < stop ==> !is_separator(path[i], backslash_separates)
            &&& start == 0 || is_separator(path[start - 1], backslash_separates)
        }),
    decreases stop,
{
    if stop > 0 && !is_separator(path[stop - 1], backslash_separates) {
        lemma_component(path, stop - 1, backslash_separates);
    }
}

/// Dropping closing separators leaves an end that is no further on.
proof fn lemma_trimmed_end(path: Seq<u8>, end: int, backslash_separates: bool)
    requires
        0 <= end <= path.len(),
    ensures
        0 <= trimmed_end(path, end, backslash_separates) <= end,
    decreases end,
{
    if end > 0 && is_separator(path[end - 1], backslash_separates) {
        lemma_trimmed_end(path, end - 1, backslash_separates);
    }
}

/// The file name of the first `end` bytes of a path is one part of it.
proof fn lemma_file_name_within(path: Seq<u8>, end: int, backslash_separates: bool)
    requires
        0 <= end <= path.len(),
    ensures
        match file_name_within(path, end, backslash_separates) {
            Some(name) => {
                &&& name.len() > 0
                &&& forall|i: int|
                    0 <= i < name.len() ==> !is_separator(#[trigger] name[i], backslash_separates)
                &&& name != seq![46u8]
                &&& name != seq![46u8, 46u8]
            },
            None => true,
        },
    decreases end,
{
    let stop = trimmed_end(path, end, backslash_separates);
    lemma_trimmed_end(path, end, backslash_separates);
    let start = component_start(path, stop, backslash_separates);
    lemma_component(path, stop, backslash_separates);
    if 0 <= start < stop <= end <= path.len() {
        let name = path.subrange(start, stop);
        if stop - start == 1 && path[start] == 46 {
            if start != 0 {
                lemma_file_name_within(path, start, backslash_separates);
            }
        } else if stop - start == 2 && path[start] == 46 && path[start + 1] == 46 {
        } else {
            assert(name[0] == path[start]);
            if name == seq![46u8] {
                assert(name.len() == 1);
            }
            if name == seq![46u8, 46u8] {
                assert(name.len() == 2);
                assert(name[1] == path[start + 1]);
            }
        }
    }
}

/// A file name is one part of a path: it is not empty, holds no separator,
/// and is neither `.` nor `..`.  Joined to a directory it therefore names a
/// file in that very directory, whatever directories the path went
/// through.
pub proof fn lemma_file_name_is_one_part(path: Seq<u8>, backslash_separates: bool)
    ensures
        match file_name_of(path, backslash_separates) {
            Some(name) => {
                &&& name.len() > 0
                &&& forall|i: int|
                    0 <= i < name.len() ==> !is_separator(#[trigger] name[i], backslash_separates)
                &&& name != seq![46u8]
                &&& name != seq![46u8, 46u8]
            },
            None => true,
        },
{
    lemma_file_name_within(path, path.len() as int, backslash_separates);
}

/// Where a backslash is no separator, the file name of a path that ends in
/// a byte which is neither a slash nor a dot is what follows its last
/// slash, backslashes and all.
pub proof fn lemma_file_name_keeps_backslashes(path: Seq<u8>, start: int)
    requires
        0 <= start < path.len(),
        start == 0 || path[start - 1] == 47,
        forall|i: int| start <= i < path.len() ==> path[i] != 47,
        path.last() != 46,
    ensures
        file_name_of(path, false) == Some(path.subrange(start, path.len() as int)),
{
    lemma_start_found(path, path.len() as int, start);
}

/// The part that ends at `stop` starts at `start` if no slash stands
/// between them and one stands before `start`, unless the path starts there.
proof fn lemma_start_found(path: Seq<u8>, stop: int, start: int)
    requires
        0 <= start <= stop <= path.len(),
        start == 0 || path[start - 1] == 47,
        forall|i: int| start <= i < stop ==> path[i] != 47,
    ensures
        component_start(path, stop, false) == start,
    decreases stop - start,
{
    if stop > start {
        lemma_start_found(path, stop - 1, start);
    }
}

/// What `first_nameless` finds is a member at or after `from` that is marked
/// and has no file name, and the first of them.
pub proof fn lemma_first_nameless(
    members: Seq<EntryView>,
    matched: Seq<bool>,
    backslash_separates: bool,
    from: int,
)
    requires
        0 <= from,
    ensures
        match first_nameless(members, matched, backslash_separates, from) {
            Some(k) => from <= k < members.len() && nameless(
                members,
                matched,
                backslash_separates,
                k,
            ) && forall|j: int|
                from <= j < k ==> !nameless(members, matched, backslash_separates, j),
            None => forall|j: int|
                from <= j < members.len() ==> !nameless(members, matched, backslash_separates, j),
        },
    decreases members.len() - from,
{
    if from < members.len() && !nameless(members, matched, backslash_separates, from) {
        lemma_first_nameless(members, matched, backslash_separates, from + 1);
    }
}

/// The files of the marked members of `members`, in order, up to the first
/// marked member without a file name, and the position of that member if
/// there is one.  A member without a mark is left out.
pub fn keep_matching(members: &Vec<ArchiveEntry>, matched: &[bool], backslash_separates: bool) -> (r:
    (Vec<SpecFile>, Option<usize>))
    ensures
        match first_nameless(entry_views(members@), matched@, backslash_separates, 0) {
            Some(k) => r.1 == Some(k as usize) && k < members@.len() && file_views(r.0@)
                == gathered(entry_views(members@), matched@, backslash_separates, k),
            None => r.1.is_none() && file_views(r.0@) == gathered(
                entry_views(members@),
                matched@,
                backslash_separates,
                members@.len() as int,
            ),
        },
{
    let mut out: Vec<SpecFile> = Vec::new();
    let mut i: usize = 0;
    assert(file_views(out@) =~= Seq::<FileView>::empty());
    while i < members.len()
        invariant
            i <= members.len(),
            first_nameless(entry_views(members@), matched@, backslash_separates, 0)
                == first_nameless(entry_views(members@), matched@, backslash_separates, i as int),
            file_views(out@) == gathered(
                entry_views(members@),
                matched@,
                backslash_separates,
                i as int,
            ),
        decreases members.len() - i,
    {
        assert(entry_views(members@)[i as int] == members@[i as int]@);
        if i < matched.len() && matched[i] {
            match file_name(members[i].path.as_slice(), backslash_separates) {
                None => {
                    return (out, Some(i));
                },
                Some(name) => {
                    let ghost before = out@;
                    out.push(SpecFile { name, contents: copy(members[i].contents.as_slice()) });
                    assert(file_views(out@) =~= file_views(before).push(
                        FileView { name: name@, contents: members@[i as int]@.contents },
                    ));
                },
            }
        }
        i += 1;
    }
    (out, None)
}

/// The path of an API description has a file name.
pub proof fn lemma_api_path_has_name(path: Seq<u8>, backslash_separates: bool)
    requires
        is_api_path(matched_path(path, backslash_separates)),
    ensures
        file_name_of(path, backslash_separates) is Some,
{
    reveal_strlit(".json");
    let seen = matched_path(path, backslash_separates);
    let n = path.len() as int;
    assert(seen.len() == n);
    assert(seen.subrange(n - 5, n)[4] == json_suffix()[4]);
    assert(seen[n - 1] == 110);
    assert(path[n - 1] == 110);
    assert(trimmed_end(path, n, backslash_separates) == n);
    lemma_component(path, n - 1, backslash_separates);
    assert(component_start(path, n, backslash_separates) == component_start(
        path,
        n - 1,
        backslash_separates,
    ));
}

/// A path without a backslash is matched as it is on every system.
pub proof fn lemma_matched_as_it_is(path: Seq<u8>, backslash_separates: bool)
    requires
        slashes_only(path),
    ensures
        matched_path(path, backslash_separates) == path,
{
    assert(normalized(path) =~= path);
}

/// Whether no path of `members` holds a backslash.
pub open spec fn all_slashes_only(members: Seq<EntryView>) -> bool {
    forall|i: int| 0 <= i < members.len() ==> slashes_only((#[trigger] members[i]).path)
}

/// In a path without a backslash the parts are the same on every system.
proof fn lemma_parts_agree(path: Seq<u8>, end: int)
    requires
        slashes_only(path),
        0 <= end <= path.len(),
    ensures
        trimmed_end(path, end, true) == trimmed_end(path, end, false),
        component_start(path, end, true) == component_start(path, end, false),
    decreases end,
{
    if end > 0 {
        assert(path[end - 1] != 92);
        lemma_parts_agree(path, end - 1);
    }
}

/// The file name of the first `end` bytes of a path without a backslash is
/// the same on every system.
proof fn lemma_file_name_within_agrees(path: Seq<u8>, end: int)
    requires
        slashes_only(path),
        0 <= end <= path.len(),
    ensures
        file_name_within(path, end, true) == file_name_within(path, end, false),
    decreases end,
{
    lemma_parts_agree(path, end);
    lemma_trimmed_end(path, end, false);
    let stop = trimmed_end(path, end, false);
    lemma_parts_agree(path, stop);
    lemma_component(path, stop, false);
    let start = component_start(path, stop, false);
    if 0 < start < stop <= end && stop - start == 1 && path[start] == 46 {
        lemma_file_name_within_agrees(path, start);
    }
}

/// A path without a backslash has the same file name on every system.
pub proof fn lemma_file_name_agrees(path: Seq<u8>)
    requires
        slashes_only(path),
    ensures
        file_name_of(path, true) == file_name_of(path, false),
{
    lemma_file_name_within_agrees(path, path.len() as int);
}

/// Members without a backslash in their paths give the same files on every
/// system.
proof fn lemma_gathered_agrees(members: Seq<EntryView>, matched: Seq<bool>, n: int)
    requires
        all_slashes_only(members),
    ensures
        gathered(members, matched, true, n) == gathered(members, matched, false, n),
    decreases n,
{
    if 0 < n <= members.len() {
        lemma_gathered_agrees(members, matched, n - 1);
        lemma_file_name_agrees(members[n - 1].path);
    }
}

/// For members without a backslash in their paths the glob is refused at
/// the same member on every system.
proof fn lemma_first_refused_agrees(pattern: Seq<char>, members: Seq<EntryView>, from: int)
    requires
        all_slashes_only(members),
    ensures
        first_refused(pattern, members, true, from) == first_refused(pattern, members, false, from),
    decreases members.len() - from,
{
    if 0 <= from < members.len() {
        lemma_matched_as_it_is(members[from].path, true);
        lemma_first_refused_agrees(pattern, members, from + 1);
    }
}

/// An archive whose member paths hold no backslash gives the same files,
/// for the same reason, on every system.
pub proof fn lemma_extraction_agrees_without_backslash(data: Seq<u8>)
    requires
        all_slashes_only(archive_listing(data).members),
    ensures
        extraction_of(data, true).files == extraction_of(data, false).files,
        extraction_of(data, true).stop == extraction_of(data, false).stop,
{
    let members = archive_listing(data).members;
    let all = members.len() as int;
    lemma_first_refused_agrees(spec_glob(), members, 0);
    lemma_first_refused(spec_glob(), members, false, 0);
    let n = match first_refused(spec_glob(), members, false, 0) {
        Some(k) => k,
        None => all,
    };
    assert(marks(members, true, n) =~= marks(members, false, n)) by {
        assert forall|i: int| 0 <= i < n implies marks(members, true, n)[i] == marks(
            members,
            false,
            n,
        )[i] by {
            lemma_matched_as_it_is(members[i].path, true);
        }
    }
    lemma_gathered_agrees(members, marks(members, false, n), all);
}

/// What was found out about the members of an archive: what the system said
/// of the backslash, which members the glob matched, and the error if the
/// glob was refused.
struct Marks {
    separates: bool,
    matched: Vec<bool>,
    refused: Option<globset::Error>,
}

/// Whether `matched` and `refused` are what the glob gives for `members`
/// one by one, up to the first for which it is refused.
spec fn marked_under(
    members: Seq<EntryView>,
    backslash_separates: bool,
    matched: Seq<bool>,
    refused: bool,
) -> bool {
    match first_refused(spec_glob(), members, backslash_separates, 0) {
        Some(k) => refused && matched == marks(members, backslash_separates, k),
        None => !refused && matched == marks(
            members,
            backslash_separates,
            members.len() as int,
        ),
    }
}

/// What `first_refused` finds is a member at or after `from`.
proof fn lemma_first_refused(
    pattern: Seq<char>,
    members: Seq<EntryView>,
    backslash_separates: bool,
    from: int,
)
    requires
        0 <= from,
    ensures
        match first_refused(pattern, members, backslash_separates, from) {
            Some(k) => from <= k < members.len(),
            None => true,
        },
    decreases members.len() - from,
{
    if from < members.len() {
        lemma_first_refused(pattern, members, backslash_separates, from + 1);
    }
}

/// Matches the glob against the path of each member in turn.  With
/// `rewrite`, every path is brought to slashes first, as is right where a
/// backslash separates.  Without it, the paths are matched as they are, and
/// the walk is given up as soon as the system says that a backslash
/// separates.
fn mark_members(members: &Vec<ArchiveEntry>, rewrite: bool) -> (r: Marks)
    ensures
        rewrite ==> r.separates,
        rewrite || !r.separates ==> marked_under(
            entry_views(members@),
            r.separates,
            r.matched@,
            r.refused is Some,
        ),
{
    let mut matched: Vec<bool> = Vec::new();
    let mut i: usize = 0;
    assert(matched@ =~= marks(entry_views(members@), rewrite, 0));
    while i < members.len()
        invariant
            i <= members.len(),
            matched@ == marks(entry_views(members@), rewrite, i as int),
            first_refused(spec_glob(), entry_views(members@), rewrite, 0) == first_refused(
                spec_glob(),
                entry_views(members@),
                rewrite,
                i as int,
            ),
        decreases members.len() - i,
    {
        proof {
            reveal_strlit("**/rest-api-spec/src/main/resources/rest-api-spec/api/*.json");
        }
        assert(entry_views(members@)[i as int] == members@[i as int]@);
        let path = if rewrite {
            normalize(members[i].path.as_slice())
        } else {
            copy(members[i].path.as_slice())
        };
        let (separates, outcome) = glob_is_match(
            "**/rest-api-spec/src/main/resources/rest-api-spec/api/*.json",
            path.as_slice(),
        );
        if separates && !rewrite {
            return Marks { separates: true, matched, refused: None };
        }
        proof {
            if rewrite {
                lemma_matched_as_it_is(path@, separates);
            }
            assert(matched_path(path@, separates) == matched_path(members@[i as int]@.path, rewrite));
        }
        match outcome {
            Ok(flag) => {
                matched.push(flag);
                i += 1;
                assert(matched@ =~= marks(entry_views(members@), rewrite, i as int));
            },
            Err(e) => {
                return Marks { separates: rewrite, matched, refused: Some(e) };
            },
        }
    }
    Marks { separates: rewrite, matched, refused: None }
}

/// Walks the members of a gzip-compressed tar archive and gathers the API
/// descriptions, by the rule for paths of the system it runs on.
pub fn extract_specs(archive: &[u8]) -> (r: Harvest)
    ensures
        r@ == extraction_of(archive@, r.backslash_separates),
{
    let (members, failure) = list_archive(archive);
    let first = mark_members(&members, false);
    let found = if first.separates {
        mark_members(&members, true)
    } else {
        first
    };
    proof {
        let views = entry_views(members@);
        lemma_first_nameless(views, found.matched@, found.separates, 0);
        assert forall|j: int| 0 <= j < views.len() implies !nameless(
            views,
            found.matched@,
            found.separates,
            j,
        ) by {
            if is_marked(found.matched@, j) {
                lemma_api_path_has_name(views[j].path, found.separates);
            }
        }
    }
    let (files, _) = keep_matching(&members, found.matched.as_slice(), found.separates);
    let stop = match found.refused {
        Some(e) => Stop::Pattern(e),
        None => match failure {
            Some(e) => Stop::Read(e),
            None => Stop::Complete,
        },
    };
    Harvest { files, stop, backslash_separates: found.separates }
}

} // verus!
