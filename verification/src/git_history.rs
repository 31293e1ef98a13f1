//! Git history as RDF: commits, their authors, parents and file changes.
//!
//! The repository is read elsewhere; here each commit, given as plain data,
//! becomes quads, and the walk over the history is told when to stop.
use vstd::prelude::*;
use vstd::string::StringExecFns;

use crate::rdf::{
    code_ns, cq, ctype, emit, lit, quad, quad_type, quads_model, spec_code_ns, string_literal,
    GraphModel, GraphName, Quad, QuadModel, Term, TermModel,
};
use crate::text::{chars_of, clone_string, push_char, string_of_range, to_owned_string};
use crate::decimal::digit_char;

verus! {

broadcast use vstd::string::group_string_axioms;

/// Why reading the history failed.
#[derive(Debug, Clone, PartialEq, Eq)]
pub enum GitLoadError {
    /// The repository could not be opened.
    RepoOpen(String),
    /// The starting reference could not be resolved to a commit.
    RevParse(String),
    /// Walking the commits failed.
    Walk(String),
    /// Comparing a commit with its parent failed.
    Diff(String),
}

/// The history read: its quads, and how many commits and file changes it describes.
pub struct GitHistoryResult {
    pub quads: Vec<Quad>,
    pub commit_count: u32,
    pub change_count: u32,
}

/// What is read of one commit.
pub struct CommitInfo {
    /// The full hexadecimal id.
    pub hash: String,
    pub author_name: Option<String>,
    pub author_email: Option<String>,
    pub committer_name: Option<String>,
    pub committer_email: Option<String>,
    /// Commit time: seconds since the Unix epoch.
    pub time_seconds: i64,
    /// Commit time: the committer's UTC offset in minutes.
    pub offset_minutes: i32,
    pub message: Option<String>,
    /// The full hexadecimal ids of the parents, in order.
    pub parent_ids: Vec<String>,
}

/// How a file changed in a commit.
#[derive(Debug, Clone, Copy, PartialEq, Eq, Structural)]
pub enum ChangeKind {
    Added,
    Deleted,
    Modified,
    Renamed,
    Copied,
    /// Any other status: unmodified, ignored, untracked, type change, unreadable, conflicted.
    Other,
}

/// One changed file of a commit, compared with its first parent.
pub struct FileDelta {
    pub kind: ChangeKind,
    /// The path after the change, if there is one.
    pub new_path: Option<String>,
    /// The path before the change, if there is one.
    pub old_path: Option<String>,
}

// --- Commit time ---

/// UTC offsets, in seconds, that can be represented: up to 25:59:59 either way.
pub open spec fn offset_in_range(s: int) -> bool {
    -93599 <= s <= 93599
}

/// Unix times, in seconds, of the dates from year -9999 to year 9999.
pub open spec fn timestamp_in_range(t: int) -> bool {
    -377705116800 <= t <= 253402300799
}

/// When an instant at an offset can be written in RFC 3339: a four-digit
/// year, and an offset of whole minutes under a day.
pub open spec fn rfc3339_formattable(t: int, off: int) -> bool {
    &&& -62167219200 <= t + off <= 253402300799
    &&& -86400 < off < 86400
    &&& off % 60 == 0
}

/// The proleptic Gregorian date `(year, month, day)` of the day `z` days
/// after 1970-01-01 (negative before it).
pub open spec fn civil_from_days(z: int) -> (int, int, int) {
    let zz = z + 719468;
    let era = zz / 146097;
    let doe = zz - era * 146097;
    let yoe = (doe - doe / 1460 + doe / 36524 - doe / 146096) / 365;
    let doy = doe - (365 * yoe + yoe / 4 - yoe / 100);
    let mp = (5 * doy + 2) / 153;
    let d = doy - (153 * mp + 2) / 5 + 1;
    let m = if mp < 10 { mp + 3 } else { mp - 9 };
    (yoe + era * 400 + if m <= 2 { 1int } else { 0int }, m, d)
}

/// `n < 100` in two digits, with a leading zero.
pub open spec fn two_digits(n: int) -> Seq<char> {
    seq![digit_char((n / 10) as nat), digit_char((n % 10) as nat)]
}

/// `n < 10000` in four digits, with leading zeros.
pub open spec fn four_digits(n: int) -> Seq<char> {
    two_digits(n / 100) + two_digits(n % 100)
}

/// The RFC 3339 text of the instant `t` (Unix seconds) at UTC offset `off`
/// (seconds): the local date and time, then `Z` at offset zero, else the
/// offset's sign, hours and minutes.
pub open spec fn rfc3339_text(t: int, off: int) -> Seq<char> {
    let local = t + off;
    let (y, m, d) = civil_from_days(local / 86400);
    let secs = local % 86400;
    let a = if off < 0 { -off } else { off };
    four_digits(y) + "-"@ + two_digits(m) + "-"@ + two_digits(d) + "T"@ + two_digits(secs / 3600) + ":"@
        + two_digits(secs % 3600 / 60) + ":"@ + two_digits(secs % 60) + if off == 0 {
        "Z"@
    } else {
        (if off < 0 { "-"@ } else { "+"@ }) + two_digits(a / 3600) + ":"@ + two_digits(a % 3600 / 60)
    }
}

/// The `time` crate: `OffsetDateTime::from_unix_timestamp(t)` moved to
/// `UtcOffset::from_whole_seconds(off)` with `to_offset`, then formatted with
/// `Rfc3339`. The instant and its local time are dates the crate represents
/// (as it is built here, without its `large-dates` feature); formatting
/// succeeds exactly when the year has four digits and the offset is whole
/// minutes under a day, and its text is `rfc3339_text`.
#[verifier::external_body]
fn rfc3339_at(t: i64, off: i32) -> (r: Option<String>)
    requires
        offset_in_range(off as int),
        timestamp_in_range(t as int),
        timestamp_in_range(t + off),
    ensures
        r is Some <==> rfc3339_formattable(t as int, off as int),
        r matches Some(s) ==> s@ == rfc3339_text(t as int, off as int),
{
    let offset = time::UtcOffset::from_whole_seconds(off).ok()?;
    let dt = time::OffsetDateTime::from_unix_timestamp(t).ok()?.to_offset(offset);
    dt.format(&time::format_description::well_known::Rfc3339).ok()
}

/// The offset used for a commit time: its own when representable, else UTC.
pub open spec fn used_offset(offset_minutes: i32) -> int {
    if offset_in_range(offset_minutes * 60) { offset_minutes * 60 } else { 0 }
}

/// The instant used for a commit time: its own when representable, else the epoch.
pub open spec fn used_instant(seconds: i64) -> int {
    if timestamp_in_range(seconds as int) { seconds as int } else { 0 }
}

/// The text of a commit time: RFC 3339 at the committer's offset, or the epoch
/// in UTC when that cannot be written.
pub open spec fn git_time_text(seconds: i64, offset_minutes: i32) -> Seq<char> {
    let t = used_instant(seconds);
    let off = used_offset(offset_minutes);
    if rfc3339_formattable(t, off) {
        rfc3339_text(t, off)
    } else {
        "1970-01-01T00:00:00Z"@
    }
}

/// The text of a commit time: RFC 3339 at the committer's offset, or the epoch
/// in UTC when that cannot be written. An unrepresentable offset counts as UTC,
/// an unrepresentable instant as the epoch.
pub fn format_git_time(seconds: i64, offset_minutes: i32) -> (r: String)
    requires
        i32::MIN <= offset_minutes * 60 <= i32::MAX,
        timestamp_in_range(used_instant(seconds) + used_offset(offset_minutes)),
    ensures
        r@ == git_time_text(seconds, offset_minutes),
{
    let off_raw: i32 = offset_minutes * 60;
    let off: i32 = if -93599 <= off_raw && off_raw <= 93599 { off_raw } else { 0 };
    let t: i64 = if -377705116800 <= seconds && seconds <= 253402300799 { seconds } else { 0 };
    match rfc3339_at(t, off) {
        Some(s) => s,
        None => to_owned_string("1970-01-01T00:00:00Z"),
    }
}


/// Whether a commit time can be formatted without overflowing: its offset in
/// seconds fits an `i32`, and the instant used, moved by the offset used, is
/// still a representable date.
pub fn commit_time_ok(seconds: i64, offset_minutes: i32) -> (r: bool)
    ensures
        r == (i32::MIN <= offset_minutes * 60 <= i32::MAX && timestamp_in_range(
            used_instant(seconds) + used_offset(offset_minutes),
        )),
{
    if offset_minutes < i32::MIN / 60 || offset_minutes > i32::MAX / 60 {
        return false;
    }
    let off_raw: i32 = offset_minutes * 60;
    let off: i64 = if -93599 <= off_raw && off_raw <= 93599 { off_raw as i64 } else { 0 };
    let t: i64 = if -377705116800 <= seconds && seconds <= 253402300799 { seconds } else { 0 };
    let sum: i64 = t + off;
    -377705116800 <= sum && sum <= 253402300799
}

// --- Quads of a commit ---

/// The IRI of `xsd:dateTime`.
pub open spec fn datetime_literal(v: Seq<char>) -> TermModel {
    TermModel::Literal(v, Some(crate::rdf::xsd_datetime_iri()))
}

/// The first seven characters of a commit id.
pub open spec fn short_of(h: Seq<char>) -> Seq<char> {
    if h.len() <= 7 { h } else { h.take(7) }
}

/// The IRI of the commit with id `h`.
pub open spec fn commit_uri(h: Seq<char>) -> Seq<char> {
    spec_code_ns("commit/"@ + short_of(h))
}

/// A literal quad when the value is present.
pub open spec fn opt_quads(s: Seq<char>, p: Seq<char>, v: Option<String>) -> Seq<QuadModel> {
    match v {
        Some(x) => seq![cq(s, p, lit(x@))],
        None => Seq::empty(),
    }
}

/// The quads describing a commit itself.
pub open spec fn commit_head_quads(c: CommitInfo) -> Seq<QuadModel> {
    let u = commit_uri(c.hash@);
    seq![
        ctype(u, "Commit"@),
        cq(u, "commitHash"@, lit(c.hash@)),
        cq(u, "shortHash"@, lit(short_of(c.hash@))),
    ] + opt_quads(u, "authorName"@, c.author_name) + opt_quads(u, "authorEmail"@, c.author_email)
        + opt_quads(u, "committerName"@, c.committer_name)
        + opt_quads(u, "committerEmail"@, c.committer_email)
        + seq![cq(u, "commitDate"@, datetime_literal(git_time_text(c.time_seconds, c.offset_minutes)))]
        + opt_quads(u, "message"@, c.message)
}

/// The quads linking a commit to its parents.
pub open spec fn parent_quads(u: Seq<char>, ps: Seq<String>) -> Seq<QuadModel>
    decreases ps.len(),
{
    if ps.len() == 0 {
        Seq::empty()
    } else {
        parent_quads(u, ps.drop_last()) + seq![cq(u, "parentCommit"@, TermModel::Iri(commit_uri(ps.last()@)))]
    }
}

/// A path, or the empty path.
pub open spec fn path_or_empty(p: Option<String>) -> Seq<char> {
    match p {
        Some(s) => s@,
        None => Seq::empty(),
    }
}

/// The change type a kind is recorded as, for kinds other than deletion.
pub open spec fn change_text(k: ChangeKind) -> Option<Seq<char>> {
    match k {
        ChangeKind::Added => Some("added"@),
        ChangeKind::Modified => Some("modified"@),
        ChangeKind::Renamed => Some("renamed"@),
        ChangeKind::Copied => Some("added"@),
        _ => None,
    }
}

/// Whether a change is recorded: it has a path after the change, and is a
/// deletion or has a change type.
pub open spec fn delta_recorded(d: FileDelta) -> bool {
    path_or_empty(d.new_path).len() > 0 && (d.kind == ChangeKind::Deleted || change_text(d.kind) is Some)
}

/// The quads of one file change of the commit `u` with short id `short`.
pub open spec fn delta_quads(u: Seq<char>, short: Seq<char>, d: FileDelta) -> Seq<QuadModel> {
    if !delta_recorded(d) {
        Seq::empty()
    } else if d.kind == ChangeKind::Deleted {
        let old = path_or_empty(d.old_path);
        let fc = spec_code_ns("commit/"@ + short + "/"@ + old);
        seq![
            ctype(fc, "FileChange"@),
            cq(fc, "changeType"@, lit("deleted"@)),
            cq(fc, "filePath"@, lit(old)),
            cq(u, "hasChange"@, TermModel::Iri(fc)),
        ]
    } else {
        let path = path_or_empty(d.new_path);
        let fc = spec_code_ns("commit/"@ + short + "/"@ + path);
        let renamed = if d.kind == ChangeKind::Renamed && d.old_path is Some {
            seq![cq(fc, "oldFilePath"@, lit(path_or_empty(d.old_path)))]
        } else {
            Seq::empty()
        };
        seq![
            ctype(fc, "FileChange"@),
            cq(fc, "changeType"@, lit(change_text(d.kind)->Some_0)),
            cq(fc, "filePath"@, lit(path)),
        ] + renamed + seq![cq(u, "hasChange"@, TermModel::Iri(fc))]
    }
}

/// The quads of the file changes of a commit.
pub open spec fn deltas_quads(u: Seq<char>, short: Seq<char>, ds: Seq<FileDelta>) -> Seq<QuadModel>
    decreases ds.len(),
{
    if ds.len() == 0 {
        Seq::empty()
    } else {
        deltas_quads(u, short, ds.drop_last()) + delta_quads(u, short, ds.last())
    }
}

/// How many file changes are recorded.
pub open spec fn recorded_count(ds: Seq<FileDelta>) -> nat
    decreases ds.len(),
{
    if ds.len() == 0 {
        0
    } else {
        recorded_count(ds.drop_last()) + if delta_recorded(ds.last()) { 1nat } else { 0nat }
    }
}

/// The quads of a commit and its file changes.
pub open spec fn commit_quads(c: CommitInfo, ds: Seq<FileDelta>) -> Seq<QuadModel> {
    commit_head_quads(c) + parent_quads(commit_uri(c.hash@), c.parent_ids@)
        + deltas_quads(commit_uri(c.hash@), short_of(c.hash@), ds)
}

/// A commit id fits the text handling: ASCII only, as hexadecimal ids are.
pub open spec fn ascii_id(h: Seq<char>) -> bool {
    forall|i: int| 0 <= i < h.len() ==> (#[trigger] h[i] as u32) < 128
}

/// The first seven characters of a commit id.
fn short_hash(h: &str) -> (r: String)
    ensures
        r@ == short_of(h@),
{
    let cs = chars_of(h);
    if cs.len() <= 7 {
        to_owned_string(h)
    } else {
        let r = string_of_range(&cs, 0, 7);
        assert(r@ =~= h@.take(7));
        r
    }
}

/// The IRI of the commit with id `h`.
fn commit_node(h: &str) -> (r: String)
    ensures
        r@ == commit_uri(h@),
{
    let mut local = to_owned_string("commit/");
    let s = short_hash(h);
    local.append(s.as_str());
    code_ns(local.as_str())
}

/// Appends a literal quad when the value is present.
fn emit_opt(out: &mut Vec<Quad>, s: &str, p: &str, v: &Option<String>)
    ensures
        quads_model(final(out)@) == quads_model(old(out)@) + opt_quads(s@, p@, *v),
{
    let ghost start = quads_model(out@);
    match v {
        Some(x) => emit(out, quad(s, p, string_literal(x.as_str()), GraphName::DefaultGraph)),
        None => {},
    }
    assert(quads_model(out@) =~= start + opt_quads(s@, p@, *v));
}

/// Appends the quads of one file change.
fn emit_delta(out: &mut Vec<Quad>, u: &str, short: &str, d: &FileDelta)
    ensures
        quads_model(final(out)@) == quads_model(old(out)@) + delta_quads(u@, short@, *d),
{
    let ghost start = quads_model(out@);
    let path = match &d.new_path {
        Some(p) => clone_string(p),
        None => String::new(),
    };
    if path.as_str().is_empty() {
        assert(quads_model(out@) =~= start + delta_quads(u@, short@, *d));
        return;
    }
    let change: &str = match d.kind {
        ChangeKind::Added => "added",
        ChangeKind::Deleted => "deleted",
        ChangeKind::Modified => "modified",
        ChangeKind::Renamed => "renamed",
        ChangeKind::Copied => "added",
        ChangeKind::Other => {
            assert(quads_model(out@) =~= start + delta_quads(u@, short@, *d));
            return;
        },
    };
    let shown = match d.kind {
        ChangeKind::Deleted => match &d.old_path {
            Some(p) => clone_string(p),
            None => String::new(),
        },
        _ => clone_string(&path),
    };
    let mut local = to_owned_string("commit/");
    local.append(short);
    local.append("/");
    local.append(shown.as_str());
    let fc = code_ns(local.as_str());
    emit(out, quad_type(fc.as_str(), "FileChange", GraphName::DefaultGraph));
    emit(out, quad(fc.as_str(), "changeType", string_literal(change), GraphName::DefaultGraph));
    emit(out, quad(fc.as_str(), "filePath", string_literal(shown.as_str()), GraphName::DefaultGraph));
    let ghost mid = quads_model(out@);
    if d.kind == ChangeKind::Renamed {
        match &d.old_path {
            Some(o) => emit(out, quad(fc.as_str(), "oldFilePath", string_literal(o.as_str()), GraphName::DefaultGraph)),
            None => {},
        }
    }
    emit(out, quad(u, "hasChange", Term::Iri(clone_string(&fc)), GraphName::DefaultGraph));
    proof {
        reveal_strlit("added");
        reveal_strlit("deleted");
        reveal_strlit("modified");
        reveal_strlit("renamed");
    }
    assert(quads_model(out@) =~= start + delta_quads(u@, short@, *d));
}

/// Appends the quads describing a commit itself; returns its IRI and short id.
fn emit_commit_head(out: &mut Vec<Quad>, c: &CommitInfo) -> (r: (String, String))
    requires
        i32::MIN <= c.offset_minutes * 60 <= i32::MAX,
        timestamp_in_range(used_instant(c.time_seconds) + used_offset(c.offset_minutes)),
    ensures
        r.0@ == commit_uri(c.hash@),
        r.1@ == short_of(c.hash@),
        quads_model(final(out)@) == quads_model(old(out)@) + commit_head_quads(*c),
{
    let ghost start = quads_model(out@);
    let h = c.hash.as_str();
    let u = commit_node(h);
    let short = short_hash(h);
    emit(out, quad_type(u.as_str(), "Commit", GraphName::DefaultGraph));
    emit(out, quad(u.as_str(), "commitHash", string_literal(h), GraphName::DefaultGraph));
    emit(out, quad(u.as_str(), "shortHash", string_literal(short.as_str()), GraphName::DefaultGraph));
    emit_opt(out, u.as_str(), "authorName", &c.author_name);
    emit_opt(out, u.as_str(), "authorEmail", &c.author_email);
    emit_opt(out, u.as_str(), "committerName", &c.committer_name);
    emit_opt(out, u.as_str(), "committerEmail", &c.committer_email);
    let date = format_git_time(c.time_seconds, c.offset_minutes);
    let lit_date = Term::Literal {
        value: date,
        datatype: Some(to_owned_string("http://www.w3.org/2001/XMLSchema#dateTime")),
    };
    emit(out, quad(u.as_str(), "commitDate", lit_date, GraphName::DefaultGraph));
    emit_opt(out, u.as_str(), "message", &c.message);
    assert(quads_model(out@) =~= start + commit_head_quads(*c));
    (u, short)
}

impl GitHistoryResult {
    /// Nothing read yet.
    pub fn new() -> (r: Self)
        ensures
            r.quads@.len() == 0,
            r.commit_count == 0,
            r.change_count == 0,
    {
        GitHistoryResult { quads: Vec::new(), commit_count: 0, change_count: 0 }
    }

    /// Whether the walk should read another commit: fewer than `max_commits` have been read.
    pub fn wants_commit(&self, max_commits: u32) -> (r: bool)
        ensures
            r == (self.commit_count < max_commits),
    {
        self.commit_count < max_commits
    }

    /// Adds a commit and its file changes, compared with its first parent.
    pub fn add_commit(&mut self, c: &CommitInfo, deltas: &Vec<FileDelta>)
        requires
            old(self).commit_count < u32::MAX,
            old(self).change_count + recorded_count(deltas@) <= u32::MAX,
            ascii_id(c.hash@),
            forall|i: int| 0 <= i < c.parent_ids@.len() ==> ascii_id(#[trigger] c.parent_ids@[i]@),
            i32::MIN <= c.offset_minutes * 60 <= i32::MAX,
            timestamp_in_range(used_instant(c.time_seconds) + used_offset(c.offset_minutes)),
        ensures
            quads_model(final(self).quads@) == quads_model(old(self).quads@) + commit_quads(*c, deltas@),
            final(self).commit_count == old(self).commit_count + 1,
            final(self).change_count == old(self).change_count + recorded_count(deltas@),
    {
        let (u, short) = emit_commit_head(&mut self.quads, c);
        let ghost head = quads_model(self.quads@);
        let mut i: usize = 0;
        while i < c.parent_ids.len()
            invariant
                0 <= i <= c.parent_ids@.len(),
                u@ == commit_uri(c.hash@),
                quads_model(self.quads@) == head + parent_quads(u@, c.parent_ids@.take(i as int)),
                self.commit_count == old(self).commit_count,
                self.change_count == old(self).change_count,
            decreases c.parent_ids.len() - i,
        {
            assert(c.parent_ids@.take(i + 1).drop_last() =~= c.parent_ids@.take(i as int));
            let pu = commit_node(c.parent_ids[i].as_str());
            emit(&mut self.quads, quad(u.as_str(), "parentCommit", Term::Iri(pu), GraphName::DefaultGraph));
            assert(quads_model(self.quads@) =~= head + parent_quads(u@, c.parent_ids@.take(i + 1)));
            i += 1;
        }
        assert(c.parent_ids@.take(c.parent_ids@.len() as int) =~= c.parent_ids@);
        let ghost mid = quads_model(self.quads@);
        let mut j: usize = 0;
        while j < deltas.len()
            invariant
                0 <= j <= deltas@.len(),
                u@ == commit_uri(c.hash@),
                short@ == short_of(c.hash@),
                old(self).change_count + recorded_count(deltas@) <= u32::MAX,
                quads_model(self.quads@) == mid + deltas_quads(u@, short@, deltas@.take(j as int)),
                self.commit_count == old(self).commit_count,
                self.change_count == old(self).change_count + recorded_count(deltas@.take(j as int)),
            decreases deltas.len() - j,
        {
            assert(deltas@.take(j + 1).drop_last() =~= deltas@.take(j as int));
            proof {
                lemma_recorded_count_prefix(deltas@, j + 1);
            }
            let ghost before = quads_model(self.quads@);
            emit_delta(&mut self.quads, u.as_str(), short.as_str(), &deltas[j]);
            assert(quads_model(self.quads@) =~= mid + deltas_quads(u@, short@, deltas@.take(j + 1)));
            if delta_is_recorded(&deltas[j]) {
                self.change_count = self.change_count + 1;
            }
            j += 1;
        }
        assert(deltas@.take(deltas@.len() as int) =~= deltas@);
        self.commit_count = self.commit_count + 1;
    }

    /// Whether a commit with these changes still fits the counters.
    pub fn commit_fits(&self, deltas: &Vec<FileDelta>) -> (r: bool)
        ensures
            r == (self.commit_count < u32::MAX && self.change_count + recorded_count(deltas@) <= u32::MAX),
    {
        if self.commit_count == u32::MAX {
            return false;
        }
        let mut n: u64 = self.change_count as u64;
        let mut j: usize = 0;
        while j < deltas.len()
            invariant
                0 <= j <= deltas@.len(),
                n == self.change_count + recorded_count(deltas@.take(j as int)),
                n <= u32::MAX,
            decreases deltas.len() - j,
        {
            assert(deltas@.take(j + 1).drop_last() =~= deltas@.take(j as int));
            proof {
                lemma_recorded_count_prefix(deltas@, j + 1);
                lemma_recorded_count_prefix(deltas@.take(j + 1), j as int);
            }
            if delta_is_recorded(&deltas[j]) {
                if n == u32::MAX as u64 {
                    proof {
                        lemma_recorded_count_prefix(deltas@, j + 1);
                    }
                    return false;
                }
                n = n + 1;
            }
            j += 1;
        }
        assert(deltas@.take(deltas@.len() as int) =~= deltas@);
        true
    }
}

/// Whether a change is recorded.
fn delta_is_recorded(d: &FileDelta) -> (r: bool)
    ensures
        r == delta_recorded(*d),
{
    let has_path = match &d.new_path {
        Some(p) => !p.as_str().is_empty(),
        None => false,
    };
    has_path && match d.kind {
        ChangeKind::Other => false,
        _ => true,
    }
}

/// A prefix never records more changes than the whole.
proof fn lemma_recorded_count_prefix(ds: Seq<FileDelta>, k: int)
    requires
        0 <= k <= ds.len(),
    ensures
        recorded_count(ds.take(k)) <= recorded_count(ds),
    decreases ds.len(),
{
    if k < ds.len() {
        assert(ds.drop_last().take(k) =~= ds.take(k));
        lemma_recorded_count_prefix(ds.drop_last(), k);
    } else {
        assert(ds.take(k) =~= ds);
    }
}

// --- Linking the history to the code ---

/// The commits a history load reads at most: the limit asked for, else 500.
pub fn max_commits_or_default(max_commits: Option<u32>) -> (r: u32)
    ensures
        r == match max_commits {
            Some(m) => m,
            None => 500u32,
        },
{
    match max_commits {
        Some(m) => m,
        None => 500,
    }
}

/// The module whose relative path is `path`: the last listed with it.
pub open spec fn module_for(modules: Seq<(String, String)>, path: Seq<char>) -> Option<Seq<char>>
    decreases modules.len(),
{
    if modules.len() == 0 {
        None
    } else if modules.last().0@ == path {
        Some(modules.last().1@)
    } else {
        module_for(modules.drop_last(), path)
    }
}

/// The links from file changes to the modules at their paths, in the order of the changes.
pub open spec fn module_link_quads(modules: Seq<(String, String)>, changes: Seq<(String, String)>) -> Seq<QuadModel>
    decreases changes.len(),
{
    if changes.len() == 0 {
        Seq::empty()
    } else {
        module_link_quads(modules, changes.drop_last()) + match module_for(modules, changes.last().1@) {
            Some(m) => seq![cq(changes.last().0@, "affectsModule"@, TermModel::Iri(m))],
            None => Seq::empty(),
        }
    }
}

/// The module whose relative path is `path`: the last listed with it.
fn module_for_exec<'a>(modules: &'a Vec<(String, String)>, path: &str) -> (r: Option<&'a String>)
    ensures
        match r {
            Some(m) => module_for(modules@, path@) == Some(m@),
            None => module_for(modules@, path@) is None,
        },
{
    let mut i: usize = modules.len();
    assert(modules@.take(modules@.len() as int) =~= modules@);
    while i > 0
        invariant
            0 <= i <= modules@.len(),
            module_for(modules@, path@) == module_for(modules@.take(i as int), path@),
        decreases i,
    {
        assert(modules@.take(i as int).drop_last() =~= modules@.take(i - 1));
        if crate::text::str_eq(modules[i - 1].0.as_str(), path) {
            return Some(&modules[i - 1].1);
        }
        i -= 1;
    }
    None
}

/// The links from file changes to modules: for each change, given as its IRI
/// and path, a link to the module (given as its relative path and IRI) at
/// that path, the last such when several are.
pub fn module_links(modules: &Vec<(String, String)>, changes: &Vec<(String, String)>) -> (r: Vec<Quad>)
    ensures
        quads_model(r@) == module_link_quads(modules@, changes@),
{
    let mut out: Vec<Quad> = Vec::new();
    let mut i: usize = 0;
    while i < changes.len()
        invariant
            0 <= i <= changes@.len(),
            quads_model(out@) == module_link_quads(modules@, changes@.take(i as int)),
        decreases changes.len() - i,
    {
        assert(changes@.take(i + 1).drop_last() =~= changes@.take(i as int));
        match module_for_exec(modules, changes[i].1.as_str()) {
            Some(m) => emit(&mut out, quad(changes[i].0.as_str(), "affectsModule", Term::Iri(clone_string(m)), GraphName::DefaultGraph)),
            None => {},
        }
        assert(quads_model(out@) =~= module_link_quads(modules@, changes@.take(i + 1)));
        i += 1;
    }
    assert(changes@.take(changes@.len() as int) =~= changes@);
    out
}

/// The links from the project to each commit.
pub open spec fn project_link_quads(project: Seq<char>, commits: Seq<String>) -> Seq<QuadModel>
    decreases commits.len(),
{
    if commits.len() == 0 {
        Seq::empty()
    } else {
        project_link_quads(project, commits.drop_last()) + seq![cq(project, "hasCommit"@, TermModel::Iri(commits.last()@))]
    }
}

/// The links from the project, when there is one, to each commit.
pub fn project_links(project: Option<&str>, commits: &Vec<String>) -> (r: Vec<Quad>)
    ensures
        match project {
            Some(p) => quads_model(r@) == project_link_quads(p@, commits@),
            None => r@.len() == 0,
        },
{
    let mut out: Vec<Quad> = Vec::new();
    let p = match project {
        Some(p) => p,
        None => {
            return out;
        },
    };
    let mut i: usize = 0;
    while i < commits.len()
        invariant
            0 <= i <= commits@.len(),
            quads_model(out@) == project_link_quads(p@, commits@.take(i as int)),
        decreases commits.len() - i,
    {
        assert(commits@.take(i + 1).drop_last() =~= commits@.take(i as int));
        emit(&mut out, quad(p, "hasCommit", Term::Iri(clone_string(&commits[i])), GraphName::DefaultGraph));
        assert(quads_model(out@) =~= project_link_quads(p@, commits@.take(i + 1)));
        i += 1;
    }
    assert(commits@.take(commits@.len() as int) =~= commits@);
    out
}

/// The quad giving the change type `t` of the file change at `path` in the
/// commit with short id `short`.
pub open spec fn change_type_quad(short: Seq<char>, path: Seq<char>, t: Seq<char>) -> QuadModel {
    cq(spec_code_ns("commit/"@ + short + "/"@ + path), "changeType"@, lit(t))
}

/// Every quad of the change `ds[k]` is among the quads of the changes `ds`.
proof fn lemma_deltas_quads_hold(u: Seq<char>, short: Seq<char>, ds: Seq<FileDelta>, k: int, j: int)
    requires
        0 <= k < ds.len(),
        0 <= j < delta_quads(u, short, ds[k]).len(),
    ensures
        deltas_quads(u, short, ds).contains(delta_quads(u, short, ds[k])[j]),
    decreases ds.len(),
{
    let front = deltas_quads(u, short, ds.drop_last());
    let last = delta_quads(u, short, ds.last());
    assert(deltas_quads(u, short, ds) == front + last);
    if k == ds.len() - 1 {
        assert((front + last)[front.len() + j] == last[j]);
    } else {
        lemma_deltas_quads_hold(u, short, ds.drop_last(), k, j);
        assert(ds.drop_last()[k] == ds[k]);
        let i = choose|i: int| 0 <= i < front.len() && front[i] == delta_quads(u, short, ds[k])[j];
        assert((front + last)[i] == front[i]);
    }
}

/// A file change with a path after it is recorded with the change type of its
/// kind: `added` for an added or copied file, `modified`, `renamed`, and
/// `deleted` (at the path it had) for a removed one; a change of any other
/// kind gives no quads.
pub proof fn law_change_type_of_kind(u: Seq<char>, short: Seq<char>, d: FileDelta)
    requires
        path_or_empty(d.new_path).len() > 0,
    ensures
        d.kind == ChangeKind::Added || d.kind == ChangeKind::Copied ==> delta_quads(u, short, d).len() >= 4
            && delta_quads(u, short, d)[1] == change_type_quad(short, path_or_empty(d.new_path), "added"@),
        d.kind == ChangeKind::Modified ==> delta_quads(u, short, d).len() >= 4 && delta_quads(u, short, d)[1]
            == change_type_quad(short, path_or_empty(d.new_path), "modified"@),
        d.kind == ChangeKind::Renamed ==> delta_quads(u, short, d).len() >= 4 && delta_quads(u, short, d)[1]
            == change_type_quad(short, path_or_empty(d.new_path), "renamed"@),
        d.kind == ChangeKind::Deleted ==> delta_quads(u, short, d).len() >= 4 && delta_quads(u, short, d)[1]
            == change_type_quad(short, path_or_empty(d.old_path), "deleted"@),
        d.kind == ChangeKind::Other ==> delta_quads(u, short, d).len() == 0,
{
}

/// Among the quads of a commit, each of its changes with a path after it
/// carries the change type of its kind: `added` for an added or copied file,
/// `modified`, `renamed`, and `deleted` (at the path it had) for a removed one.
pub proof fn law_commit_change_types(c: CommitInfo, ds: Seq<FileDelta>, k: int)
    requires
        0 <= k < ds.len(),
        path_or_empty(ds[k].new_path).len() > 0,
    ensures
        ({
            let q = commit_quads(c, ds);
            let d = ds[k];
            let short = short_of(c.hash@);
            &&& (d.kind == ChangeKind::Added || d.kind == ChangeKind::Copied) ==> q.contains(
                change_type_quad(short, path_or_empty(d.new_path), "added"@),
            )
            &&& d.kind == ChangeKind::Modified ==> q.contains(change_type_quad(short, path_or_empty(d.new_path), "modified"@))
            &&& d.kind == ChangeKind::Renamed ==> q.contains(change_type_quad(short, path_or_empty(d.new_path), "renamed"@))
            &&& d.kind == ChangeKind::Deleted ==> q.contains(change_type_quad(short, path_or_empty(d.old_path), "deleted"@))
        }),
{
    let u = commit_uri(c.hash@);
    let short = short_of(c.hash@);
    let d = ds[k];
    law_change_type_of_kind(u, short, d);
    if d.kind != ChangeKind::Other {
        lemma_deltas_quads_hold(u, short, ds, k, 1);
        let head = commit_head_quads(c) + parent_quads(u, c.parent_ids@);
        let dq = deltas_quads(u, short, ds);
        let x = delta_quads(u, short, d)[1];
        let i = choose|i: int| 0 <= i < dq.len() && dq[i] == x;
        assert(commit_quads(c, ds) == head + dq);
        assert((head + dq)[head.len() + i] == x);
    }
}

} // verus!

