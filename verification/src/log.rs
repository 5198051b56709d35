//! `git log` with a field-separated format: one record per commit.
use vstd::prelude::*;

use crate::error::{GitError, GitErrorView};
use crate::runner::{CommandRunner, args_view};
use crate::text::{
    chars_of, contains, decimal, decimal_string, is_ws, join, lemma_char_not_found, lemma_join_char_free,
    lemma_join_front, lemma_split_join, split, split_exec, string_of_all, trim, trim_end, trim_exec, trim_start,
    unbordered,
};

verus! {

#[derive(Debug, Clone, PartialEq)]
pub struct CommitInfo {
    pub hash: String,
    pub short_hash: String,
    pub author: String,
    pub date: String,
    pub message: String,
    pub refs: Vec<String>,
    pub parent_hashes: Vec<String>,
}

pub struct CommitInfoView {
    pub hash: Seq<char>,
    pub short_hash: Seq<char>,
    pub author: Seq<char>,
    pub date: Seq<char>,
    pub message: Seq<char>,
    pub refs: Seq<Seq<char>>,
    pub parent_hashes: Seq<Seq<char>>,
}

pub open spec fn strings_view(v: Seq<String>) -> Seq<Seq<char>> {
    v.map_values(|s: String| s@)
}

impl View for CommitInfo {
    type V = CommitInfoView;

    open spec fn view(&self) -> CommitInfoView {
        CommitInfoView {
            hash: self.hash@,
            short_hash: self.short_hash@,
            author: self.author@,
            date: self.date@,
            message: self.message@,
            refs: strings_view(self.refs@),
            parent_hashes: strings_view(self.parent_hashes@),
        }
    }
}

pub open spec fn commits_view(v: Seq<CommitInfo>) -> Seq<CommitInfoView> {
    v.map_values(|c: CommitInfo| c@)
}

/// What a record of the log output stands for.
pub enum RecordView {
    Blank,
    Malformed(Seq<char>),
    Commit(CommitInfoView),
}

pub open spec fn record_sep() -> Seq<char> {
    seq!['\x1e']
}

pub open spec fn field_sep() -> Seq<char> {
    seq!['\x1f']
}

pub open spec fn ref_sep() -> Seq<char> {
    seq![',', ' ']
}

/// The message of the error for a record with `n` fields.
pub open spec fn field_count_message(n: nat, record: Seq<char>) -> Seq<char> {
    "expected 7 fields, got "@ + decimal(n) + ": "@ + record
}

/// A record of the log output, trimmed: blank, or its `\x1f`-separated fields
/// hash, short hash, parents (space-separated), refs (separated by `", "`),
/// author, date and subject; fewer than 7 fields make it malformed.
pub open spec fn record_of(raw: Seq<char>) -> RecordView {
    let t = trim(raw);
    let f = split(t, field_sep());
    if t.len() == 0 {
        RecordView::Blank
    } else if f.len() < 7 {
        RecordView::Malformed(field_count_message(f.len(), t))
    } else {
        RecordView::Commit(CommitInfoView {
            hash: f[0],
            short_hash: f[1],
            author: f[4],
            date: f[5],
            message: f[6],
            refs: if f[3].len() == 0 { seq![] } else { split(f[3], ref_sep()) },
            parent_hashes: if f[2].len() == 0 { seq![] } else { split(f[2], seq![' ']) },
        })
    }
}

/// The commits of the records, up to the first malformed one, whose message
/// is then the outcome.
pub open spec fn commits_of(records: Seq<Seq<char>>) -> Result<Seq<CommitInfoView>, Seq<char>>
    decreases records.len(),
{
    if records.len() == 0 {
        Ok(seq![])
    } else {
        match commits_of(records.drop_last()) {
            Err(m) => Err(m),
            Ok(cs) => match record_of(records.last()) {
                RecordView::Blank => Ok(cs),
                RecordView::Malformed(m) => Err(m),
                RecordView::Commit(c) => Ok(cs.push(c)),
            },
        }
    }
}

/// The outcome `r` that a log output with these records gives.
pub open spec fn log_result(records: Seq<Seq<char>>, r: Result<Vec<CommitInfo>, GitError>) -> bool {
    match commits_of(records) {
        Ok(cs) => r matches Ok(v) && commits_view(v@) == cs,
        Err(m) => r matches Err(e) && e@ == GitErrorView::ParseError(m),
    }
}

/// The strings that a list of character vectors spells.
pub fn strings_of(parts: &Vec<Vec<char>>) -> (r: Vec<String>)
    ensures
        r@.len() == parts@.len(),
        forall|k: int| 0 <= k < r@.len() ==> #[trigger] r@[k]@ == parts@[k]@,
{
    let mut r: Vec<String> = Vec::new();
    let mut k: usize = 0;
    while k < parts.len()
        invariant
            k <= parts@.len(),
            r@.len() == k,
            forall|j: int| 0 <= j < k ==> #[trigger] r@[j]@ == parts@[j]@,
        decreases parts.len() - k,
    {
        r.push(string_of_all(&parts[k]));
        k += 1;
    }
    r
}

/// The pieces of `s` split at `p`, as strings; none when `s` is empty.
fn split_list(s: &Vec<char>, p: &Vec<char>) -> (r: Vec<String>)
    requires
        p.len() > 0,
    ensures
        strings_view(r@) == (if s@.len() == 0 { Seq::<Seq<char>>::empty() } else { split(s@, p@) }),
{
    if s.len() == 0 {
        let r = Vec::new();
        assert(strings_view(r@) =~= Seq::<Seq<char>>::empty());
        r
    } else {
        let pieces = split_exec(s, p);
        let r = strings_of(&pieces);
        assert(strings_view(r@) =~= split(s@, p@));
        r
    }
}

fn field_count_error(n: usize, record: &Vec<char>) -> (e: GitError)
    ensures
        e@ == GitErrorView::ParseError(field_count_message(n as nat, record@)),
{
    let mut m = String::from_str("expected 7 fields, got ");
    let count = decimal_string(n as u64);
    m.append(count.as_str());
    m.append(": ");
    let rec = string_of_all(record);
    m.append(rec.as_str());
    GitError::ParseError(m)
}

fn record_exec(raw: &Vec<char>) -> (r: Result<Option<CommitInfo>, GitError>)
    ensures
        match record_of(raw@) {
            RecordView::Blank => r matches Ok(None),
            RecordView::Malformed(m) => r matches Err(e) && e@ == GitErrorView::ParseError(m),
            RecordView::Commit(c) => r matches Ok(Some(ci)) && ci@ == c,
        },
{
    let t = trim_exec(raw);
    if t.len() == 0 {
        return Ok(None);
    }
    let fsep = vec!['\x1f'];
    assert(fsep@ =~= field_sep());
    let fields = split_exec(&t, &fsep);
    if fields.len() < 7 {
        return Err(field_count_error(fields.len(), &t));
    }
    let space = vec![' '];
    assert(space@ =~= seq![' ']);
    let rsep = vec![',', ' '];
    assert(rsep@ =~= ref_sep());
    let parent_hashes = split_list(&fields[2], &space);
    let refs = split_list(&fields[3], &rsep);
    let c = CommitInfo {
        hash: string_of_all(&fields[0]),
        short_hash: string_of_all(&fields[1]),
        author: string_of_all(&fields[4]),
        date: string_of_all(&fields[5]),
        message: string_of_all(&fields[6]),
        refs,
        parent_hashes,
    };
    Ok(Some(c))
}

/// The commits of `git log` output in the format that `get_log` asks for:
/// records separated by `\x1e`, each trimmed; a blank record is skipped and
/// the first record with fewer than 7 fields is an error.
pub fn parse_log(output: &str) -> (r: Result<Vec<CommitInfo>, GitError>)
    ensures
        log_result(split(output@, record_sep()), r),
{
    let text = chars_of(output);
    let rsep = vec!['\x1e'];
    assert(rsep@ =~= record_sep());
    let records = split_exec(&text, &rsep);
    let ghost rv = split(output@, record_sep());
    let mut commits: Vec<CommitInfo> = Vec::new();
    let mut i: usize = 0;
    assert(rv.take(0) =~= Seq::<Seq<char>>::empty());
    assert(commits_view(commits@) =~= Seq::<CommitInfoView>::empty());
    while i < records.len()
        invariant
            rv == split(output@, record_sep()),
            records@.len() == rv.len(),
            forall|k: int| 0 <= k < records@.len() ==> #[trigger] records@[k]@ == rv[k],
            i <= records@.len(),
            commits_of(rv.take(i as int)) == Ok::<Seq<CommitInfoView>, Seq<char>>(commits_view(commits@)),
        decreases records.len() - i,
    {
        assert(records@[i as int]@ == rv[i as int]);
        assert(rv.take(i + 1).drop_last() =~= rv.take(i as int));
        match record_exec(&records[i]) {
            Ok(Some(c)) => {
                let ghost prev = commits@;
                commits.push(c);
                assert(commits_view(commits@) =~= commits_view(prev).push(c@));
            },
            Ok(None) => {},
            Err(e) => {
                proof {
                    lemma_commits_of_error_stays(rv, i as int + 1);
                }
                return Err(e);
            },
        }
        i += 1;
    }
    assert(rv.take(records@.len() as int) =~= rv);
    Ok(commits)
}

proof fn lemma_commits_of_error_stays(records: Seq<Seq<char>>, k: int)
    requires
        0 <= k <= records.len(),
        commits_of(records.take(k)) is Err,
    ensures
        commits_of(records) == commits_of(records.take(k)),
    decreases records.len() - k,
{
    if k == records.len() {
        assert(records.take(k) =~= records);
    } else {
        assert(records.take(k + 1).drop_last() =~= records.take(k));
        lemma_commits_of_error_stays(records, k + 1);
    }
}

pub open spec fn log_args(limit: nat) -> Seq<Seq<char>> {
    seq!["log"@, "--max-count="@ + decimal(limit), "--format=%H\x1f%h\x1f%P\x1f%D\x1f%an\x1f%ai\x1f%s\x1e"@]
}

/// The latest `limit` commits: `git log --max-count=<limit>` in the record
/// format that `parse_log` reads.
pub fn get_log<R: CommandRunner>(runner: &R, limit: usize) -> (r: Result<Vec<CommitInfo>, GitError>)
    ensures
        exists|out: Result<Seq<char>, GitErrorView>|
            #[trigger] runner.run_outcome(log_args(limit as nat), None, out) && match out {
                Ok(o) => log_result(split(o, record_sep()), r),
                Err(e) => r matches Err(err) && err@ == e,
            },
{
    let mut count = String::from_str("--max-count=");
    let digits = decimal_string(limit as u64);
    count.append(digits.as_str());
    let args = ["log", count.as_str(), "--format=%H\x1f%h\x1f%P\x1f%D\x1f%an\x1f%ai\x1f%s\x1e"];
    assert(args_view(args@) =~= log_args(limit as nat));
    match runner.run(&args) {
        Ok(output) => parse_log(output.as_str()),
        Err(e) => Err(e),
    }
}

// ---------------------------------------------------------------------------
// The record layout read back
// ---------------------------------------------------------------------------

/// The record of a commit as `get_log`'s format writes it: hash, short
/// hash, parents joined by spaces, refs joined by `", "`, author, date and
/// subject, joined by `\x1f`.
pub open spec fn record_text(c: CommitInfoView) -> Seq<char> {
    join(
        seq![c.hash, c.short_hash, join(c.parent_hashes, seq![' ']), join(c.refs, ref_sep()), c.author, c.date, c.message],
        field_sep(),
    )
}

/// The log output for commits, newest first: each record followed by `\x1e`.
pub open spec fn log_text(cs: Seq<CommitInfoView>) -> Seq<char>
    decreases cs.len(),
{
    if cs.len() == 0 {
        seq![]
    } else {
        log_text(cs.drop_last()) + record_text(cs.last()) + record_sep()
    }
}

/// A field holds neither separator.
pub open spec fn plain_field(s: Seq<char>) -> bool {
    !s.contains('\x1e') && !s.contains('\x1f')
}

/// A commit that its record gives back: no field holds a separator; each
/// parent hash is non-empty and has no space; each ref is non-empty and has
/// no `", "`; the hash does not start and the subject does not end with
/// whitespace (a record is trimmed when read).
pub open spec fn encodable(c: CommitInfoView) -> bool {
    &&& plain_field(c.hash)
    &&& plain_field(c.short_hash)
    &&& plain_field(c.author)
    &&& plain_field(c.date)
    &&& plain_field(c.message)
    &&& (c.hash.len() > 0 ==> !is_ws(c.hash[0]))
    &&& (c.message.len() > 0 ==> !is_ws(c.message.last()))
    &&& forall|k: int|
        0 <= k < c.parent_hashes.len() ==> {
            let h = #[trigger] c.parent_hashes[k];
            plain_field(h) && h.len() > 0 && !h.contains(' ')
        }
    &&& forall|k: int|
        0 <= k < c.refs.len() ==> {
            let r = #[trigger] c.refs[k];
            plain_field(r) && r.len() > 0 && !contains(r, ref_sep())
        }
}

proof fn lemma_single_char_unbordered(c: char)
    ensures
        unbordered(seq![c]),
{
}

proof fn lemma_ref_sep_unbordered()
    ensures
        unbordered(ref_sep()),
{
    assert forall|j: int| 0 < j < ref_sep().len() implies #[trigger] ref_sep().subrange(j, ref_sep().len() as int)
        != ref_sep().take(ref_sep().len() - j) by {
        assert(ref_sep().subrange(1, 2)[0] == ' ');
        assert(ref_sep().take(1)[0] == ',');
    }
}

/// A list joined by a separator reads back as the list, empty text as no
/// item.
proof fn lemma_list_round_trip(items: Seq<Seq<char>>, sep: Seq<char>)
    requires
        sep.len() > 0,
        unbordered(sep),
        forall|k: int| 0 <= k < items.len() ==> (#[trigger] items[k]).len() > 0 && !contains(items[k], sep),
    ensures
        (if join(items, sep).len() == 0 { Seq::<Seq<char>>::empty() } else { split(join(items, sep), sep) }) == items,
{
    if items.len() == 0 {
    } else {
        lemma_split_join(items, sep);
        if join(items, sep).len() == 0 {
            assert(split(join(items, sep), sep) =~= seq![join(items, sep)]);
            assert(items[0].len() > 0);
        }
    }
}

proof fn lemma_fields_free(c: CommitInfoView, ch: char)
    requires
        encodable(c),
        ch == '\x1e' || ch == '\x1f',
    ensures
        !join(c.parent_hashes, seq![' ']).contains(ch),
        !join(c.refs, ref_sep()).contains(ch),
{
    assert forall|k: int| 0 <= k < c.parent_hashes.len() implies !(#[trigger] c.parent_hashes[k]).contains(ch) by {
        assert(plain_field(c.parent_hashes[k]));
    }
    assert forall|k: int| 0 <= k < c.refs.len() implies !(#[trigger] c.refs[k]).contains(ch) by {
        assert(plain_field(c.refs[k]));
    }
    assert(!seq![' '].contains(ch)) by {
        assert(seq![' '][0] == ' ');
    }
    assert(!ref_sep().contains(ch)) by {
        assert(ref_sep()[0] == ',');
        assert(ref_sep()[1] == ' ');
    }
    lemma_join_char_free(c.parent_hashes, seq![' '], ch);
    lemma_join_char_free(c.refs, ref_sep(), ch);
}

/// The fields of a commit's record.
pub open spec fn record_fields(c: CommitInfoView) -> Seq<Seq<char>> {
    seq![c.hash, c.short_hash, join(c.parent_hashes, seq![' ']), join(c.refs, ref_sep()), c.author, c.date, c.message]
}

proof fn lemma_record_round_trip(c: CommitInfoView)
    requires
        encodable(c),
    ensures
        record_of(record_text(c)) == RecordView::Commit(c),
        !record_text(c).contains('\x1e'),
{
    let f = record_fields(c);
    let r = record_text(c);
    assert(r == join(f, field_sep()));
    lemma_fields_free(c, '\x1e');
    lemma_fields_free(c, '\x1f');
    // The fields hold no `\x1f`, so splitting at it gives them back.
    assert forall|k: int| 0 <= k < f.len() implies !contains(#[trigger] f[k], field_sep()) by {
        assert(!f[k].contains('\x1f'));
        lemma_char_not_found(f[k], '\x1f');
    }
    lemma_single_char_unbordered('\x1f');
    lemma_split_join(f, field_sep());
    // Nor `\x1e`.
    assert(!field_sep().contains('\x1e')) by {
        assert(field_sep()[0] == '\x1f');
    }
    assert forall|k: int| 0 <= k < f.len() implies !(#[trigger] f[k]).contains('\x1e') by {}
    lemma_join_char_free(f, field_sep(), '\x1e');
    // The record is already trimmed: it starts with the hash (or a `\x1f`)
    // and ends with the subject (or a `\x1f`).
    lemma_join_front(c.hash, f.drop_first(), field_sep());
    assert(f =~= seq![c.hash] + f.drop_first());
    assert(r == c.hash + field_sep() + join(f.drop_first(), field_sep()));
    assert(r.len() > 0);
    assert(!is_ws(r[0])) by {
        if c.hash.len() > 0 {
            assert(r[0] == c.hash[0]);
        } else {
            assert(r[0] == '\x1f');
        }
    }
    assert(r == join(f.drop_last(), field_sep()) + field_sep() + c.message);
    assert(!is_ws(r.last())) by {
        if c.message.len() > 0 {
            assert(r.last() == c.message.last());
        } else {
            assert(r.last() == '\x1f');
        }
    }
    assert(trim_start(r) == r);
    assert(trim_end(r) == r);
    assert(trim(r) == r);
    // Parents and refs read back.
    assert forall|k: int| 0 <= k < c.parent_hashes.len() implies (#[trigger] c.parent_hashes[k]).len() > 0 && !contains(
        c.parent_hashes[k],
        seq![' '],
    ) by {
        lemma_char_not_found(c.parent_hashes[k], ' ');
    }
    lemma_single_char_unbordered(' ');
    lemma_list_round_trip(c.parent_hashes, seq![' ']);
    lemma_ref_sep_unbordered();
    assert forall|k: int| 0 <= k < c.refs.len() implies (#[trigger] c.refs[k]).len() > 0 && !contains(c.refs[k], ref_sep()) by {}
    lemma_list_round_trip(c.refs, ref_sep());
    assert(split(trim(r), field_sep()) == f);
}

/// The log text is its records joined by `\x1e`, with an empty piece after
/// the last separator.
proof fn lemma_log_text_join(cs: Seq<CommitInfoView>)
    ensures
        log_text(cs) == join(cs.map_values(|c: CommitInfoView| record_text(c)).push(seq![]), record_sep()),
    decreases cs.len(),
{
    let rs = cs.map_values(|c: CommitInfoView| record_text(c));
    if cs.len() == 0 {
        assert(rs.push(seq![]) =~= seq![Seq::<char>::empty()]);
    } else {
        lemma_log_text_join(cs.drop_last());
        let rs0 = cs.drop_last().map_values(|c: CommitInfoView| record_text(c));
        assert(rs.drop_last() =~= rs0);
        assert(rs.push(seq![]).drop_last() =~= rs);
        assert(rs0.push(seq![]).drop_last() =~= rs0);
        if cs.len() == 1 {
            assert(rs0.push(seq![]) =~= seq![Seq::<char>::empty()]);
            assert(join(rs, record_sep()) == rs[0]);
            assert(log_text(cs) =~= join(rs.push(seq![]), record_sep()));
        } else {
            let e = Seq::<char>::empty();
            assert(join(rs0.push(e), record_sep()) == join(rs0, record_sep()) + record_sep() + e);
            assert(join(rs.push(e), record_sep()) == join(rs, record_sep()) + record_sep() + e);
            assert(rs.last() == record_text(cs.last()));
            assert(join(rs, record_sep()) == join(rs0, record_sep()) + record_sep() + record_text(cs.last()));
            assert(log_text(cs) =~= join(rs.push(seq![]), record_sep()));
        }
    }
}

proof fn lemma_commits_of_records(cs: Seq<CommitInfoView>)
    requires
        forall|i: int| 0 <= i < cs.len() ==> encodable(#[trigger] cs[i]),
    ensures
        commits_of(cs.map_values(|c: CommitInfoView| record_text(c))) == Ok::<Seq<CommitInfoView>, Seq<char>>(cs),
    decreases cs.len(),
{
    if cs.len() > 0 {
        let rs = cs.map_values(|c: CommitInfoView| record_text(c));
        lemma_commits_of_records(cs.drop_last());
        assert(rs.drop_last() =~= cs.drop_last().map_values(|c: CommitInfoView| record_text(c)));
        assert(encodable(cs[cs.len() - 1]));
        lemma_record_round_trip(cs.last());
        assert(rs.last() == record_text(cs.last()));
        assert(commits_of(rs.drop_last()) == Ok::<Seq<CommitInfoView>, Seq<char>>(cs.drop_last()));
        assert(record_of(rs.last()) == RecordView::Commit(cs.last()));
        assert(commits_of(rs) == Ok::<Seq<CommitInfoView>, Seq<char>>(cs.drop_last().push(cs.last())));
        assert(cs.drop_last().push(cs.last()) =~= cs);
    } else {
        assert(cs.map_values(|c: CommitInfoView| record_text(c)).len() == 0);
        assert(cs =~= Seq::<CommitInfoView>::empty());
    }
}

/// Reading the log text of commits gives the commits back, in order, when
/// each commit is one that its record can hold (see `encodable`); the text
/// of no commit reads as none.
pub proof fn lemma_log_round_trip(cs: Seq<CommitInfoView>)
    requires
        forall|i: int| 0 <= i < cs.len() ==> encodable(#[trigger] cs[i]),
    ensures
        commits_of(split(log_text(cs), record_sep())) == Ok::<Seq<CommitInfoView>, Seq<char>>(cs),
{
    let rs = cs.map_values(|c: CommitInfoView| record_text(c));
    let parts = rs.push(seq![]);
    lemma_log_text_join(cs);
    assert forall|k: int| 0 <= k < parts.len() implies !contains(#[trigger] parts[k], record_sep()) by {
        if k < rs.len() {
            assert(encodable(cs[k]));
            lemma_record_round_trip(cs[k]);
            assert(parts[k] == record_text(cs[k]));
            lemma_char_not_found(parts[k], '\x1e');
        } else {
            assert(parts[k] == Seq::<char>::empty());
            lemma_char_not_found(parts[k], '\x1e');
        }
    }
    lemma_single_char_unbordered('\x1e');
    lemma_split_join(parts, record_sep());
    lemma_commits_of_records(cs);
    assert(parts.drop_last() =~= rs);
    assert(trim(Seq::<char>::empty()) =~= Seq::<char>::empty());
    assert(record_of(parts.last()) == RecordView::Blank);
}

/// Log text as git prints it with `--format`: each record followed by
/// `\x1e` and then `gap` (the newline git writes after each entry).
pub open spec fn log_text_with(cs: Seq<CommitInfoView>, gap: Seq<char>) -> Seq<char>
    decreases cs.len(),
{
    if cs.len() == 0 {
        seq![]
    } else {
        log_text_with(cs.drop_last(), gap) + record_text(cs.last()) + record_sep() + gap
    }
}

/// Every character of `s` is whitespace.
pub open spec fn all_ws(s: Seq<char>) -> bool {
    forall|i: int| 0 <= i < s.len() ==> is_ws(#[trigger] s[i])
}

/// The pieces between the `\x1e`s of `log_text_with(cs, gap)`: each record
/// after the gap that follows the previous one, and the gap at the end.
spec fn gap_pieces(cs: Seq<CommitInfoView>, gap: Seq<char>) -> Seq<Seq<char>> {
    Seq::new(
        cs.len() + 1,
        |k: int| (if k == 0 { Seq::<char>::empty() } else { gap }) + (if k < cs.len() { record_text(cs[k]) } else { Seq::<char>::empty() }),
    )
}

proof fn lemma_join_push_append(xs: Seq<Seq<char>>, y: Seq<char>, z: Seq<char>, sep: Seq<char>)
    ensures
        join(xs.push(y + z), sep) == join(xs.push(y), sep) + z,
{
    assert(xs.push(y + z).drop_last() =~= xs);
    assert(xs.push(y).drop_last() =~= xs);
    if xs.len() == 0 {
        assert(xs.push(y + z) =~= seq![y + z]);
        assert(xs.push(y) =~= seq![y]);
    } else {
        assert(join(xs.push(y + z), sep) =~= join(xs.push(y), sep) + z);
    }
}

proof fn lemma_gap_pieces_join(cs: Seq<CommitInfoView>, gap: Seq<char>)
    ensures
        log_text_with(cs, gap) == join(gap_pieces(cs, gap), record_sep()),
    decreases cs.len(),
{
    let p = gap_pieces(cs, gap);
    if cs.len() == 0 {
        assert(p =~= seq![Seq::<char>::empty()]);
    } else {
        let d = cs.drop_last();
        let pd = gap_pieces(d, gap);
        let r = record_text(cs.last());
        lemma_gap_pieces_join(d, gap);
        assert(p.drop_last() =~= pd.drop_last().push(pd.last() + r));
        lemma_join_push_append(pd.drop_last(), pd.last(), r, record_sep());
        assert(pd.drop_last().push(pd.last()) =~= pd);
        assert(p.last() == gap);
        assert(join(p, record_sep()) == join(p.drop_last(), record_sep()) + record_sep() + gap);
        assert(log_text_with(cs, gap) =~= join(p, record_sep()));
    }
}

proof fn lemma_trim_start_ws_prefix(w: Seq<char>, r: Seq<char>)
    requires
        all_ws(w),
    ensures
        trim_start(w + r) == trim_start(r),
    decreases w.len(),
{
    if w.len() == 0 {
        assert(w + r =~= r);
    } else {
        assert((w + r)[0] == w[0]);
        assert((w + r).drop_first() =~= w.drop_first() + r);
        assert forall|i: int| 0 <= i < w.drop_first().len() implies is_ws(#[trigger] w.drop_first()[i]) by {
            assert(w.drop_first()[i] == w[i + 1]);
        }
        lemma_trim_start_ws_prefix(w.drop_first(), r);
    }
}

proof fn lemma_concat_char_free(a: Seq<char>, b: Seq<char>, c: char)
    requires
        !a.contains(c),
        !b.contains(c),
    ensures
        !(a + b).contains(c),
{
    assert forall|i: int| 0 <= i < (a + b).len() implies (a + b)[i] != c by {
        if i < a.len() {
            assert((a + b)[i] == a[i]);
        } else {
            assert((a + b)[i] == b[i - a.len()]);
        }
    }
}

/// Reading log text as git prints it, each record followed by `\x1e` and
/// then whitespace such as a newline, gives the commits back in order, when
/// each commit is one that its record can hold (see `encodable`): each
/// record is read trimmed, so no field picks up the whitespace between
/// records.
pub proof fn lemma_log_round_trip_with(cs: Seq<CommitInfoView>, gap: Seq<char>)
    requires
        forall|i: int| 0 <= i < cs.len() ==> encodable(#[trigger] cs[i]),
        all_ws(gap),
    ensures
        commits_of(split(log_text_with(cs, gap), record_sep())) == Ok::<Seq<CommitInfoView>, Seq<char>>(cs),
{
    let p = gap_pieces(cs, gap);
    let n = cs.len() as int;
    lemma_gap_pieces_join(cs, gap);
    assert(!gap.contains('\x1e')) by {
        assert forall|i: int| 0 <= i < gap.len() implies gap[i] != '\x1e' by {
            assert(is_ws(gap[i]));
        }
    }
    assert(!Seq::<char>::empty().contains('\x1e'));
    assert forall|k: int| 0 <= k < p.len() implies !contains(#[trigger] p[k], record_sep()) by {
        let pre = if k == 0 { Seq::<char>::empty() } else { gap };
        let rec = if k < n { record_text(cs[k]) } else { Seq::<char>::empty() };
        if k < n {
            assert(encodable(cs[k]));
            lemma_record_round_trip(cs[k]);
        }
        lemma_concat_char_free(pre, rec, '\x1e');
        assert(p[k] == pre + rec);
        lemma_char_not_found(p[k], '\x1e');
    }
    lemma_single_char_unbordered('\x1e');
    lemma_split_join(p, record_sep());
    // Each piece reads as its record: the gap in front is trimmed away.
    assert forall|k: int| 0 <= k <= n implies #[trigger] commits_of(p.take(k)) == Ok::<Seq<CommitInfoView>, Seq<char>>(
        cs.take(k),
    ) by {
        lemma_commits_of_gap_prefix(cs, gap, k);
    }
    assert(p.take(n) =~= p.drop_last());
    assert(cs.take(n) =~= cs);
    // The last piece is the gap alone: blank.
    let pre_last = if n == 0 { Seq::<char>::empty() } else { gap };
    assert(p.last() == pre_last + Seq::<char>::empty());
    assert(all_ws(pre_last));
    lemma_trim_start_ws_prefix(pre_last, Seq::<char>::empty());
    assert(trim_start(Seq::<char>::empty()) == Seq::<char>::empty());
    assert(trim(p.last()) == Seq::<char>::empty());
    assert(record_of(p.last()) == RecordView::Blank);
    assert(commits_of(p.drop_last()) == Ok::<Seq<CommitInfoView>, Seq<char>>(cs));
    assert(commits_of(p) == Ok::<Seq<CommitInfoView>, Seq<char>>(cs));
}

proof fn lemma_commits_of_gap_prefix(cs: Seq<CommitInfoView>, gap: Seq<char>, k: int)
    requires
        forall|i: int| 0 <= i < cs.len() ==> encodable(#[trigger] cs[i]),
        all_ws(gap),
        0 <= k <= cs.len(),
    ensures
        commits_of(gap_pieces(cs, gap).take(k)) == Ok::<Seq<CommitInfoView>, Seq<char>>(cs.take(k)),
    decreases k,
{
    let p = gap_pieces(cs, gap);
    if k == 0 {
        assert(p.take(0) =~= Seq::<Seq<char>>::empty());
        assert(cs.take(0) =~= Seq::<CommitInfoView>::empty());
    } else {
        lemma_commits_of_gap_prefix(cs, gap, k - 1);
        assert(p.take(k).drop_last() =~= p.take(k - 1));
        let c = cs[k - 1];
        assert(encodable(c));
        lemma_record_round_trip(c);
        let pre = if k - 1 == 0 { Seq::<char>::empty() } else { gap };
        assert(p.take(k).last() == pre + record_text(c));
        lemma_trim_start_ws_prefix(pre, record_text(c));
        assert(trim(pre + record_text(c)) == trim(record_text(c)));
        assert(record_of(pre + record_text(c)) == record_of(record_text(c)));
        assert(cs.take(k) =~= cs.take(k - 1).push(c));
    }
}

} // verus!
