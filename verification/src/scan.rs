//! A folder scan as the client sees it: the server-sent events that report
//! its start, the progress after each movie file and its end, the counts
//! behind them, and the errors that stop a scan before it starts.

use vstd::prelude::*;
use vstd::string::StringExecFns;
use crate::text::{
    chars_of, decimal, decimal_string, digits_value, is_ascii_digit, lemma_decimal,
    lemma_replaced_absent, lemma_replaced_concat, replace_char, replaced, string_from_chars,
};

verus! {

/// One server-sent event carrying `message`.
pub open spec fn event_of(message: Seq<char>) -> Seq<char> {
    "data: "@ + message + "\n\n"@
}

/// Frames `message` as one server-sent event: `data: <message>`, then a
/// blank line.
pub fn sse_event(message: &str) -> (r: String)
    ensures
        r@ == event_of(message@),
{
    let mut r = String::from_str("data: ");
    r.append(message);
    r.append("\n\n");
    r
}

/// A title as it stands inside a JSON string of a progress message: each
/// double quote preceded by a backslash.
pub open spec fn quoted_title(title: Seq<char>) -> Seq<char> {
    replaced(title, '"', seq!['\\', '"'])
}

fn quote_title(title: &str) -> (r: String)
    ensures
        r@ == quoted_title(title@),
{
    let chars = chars_of(title);
    let escape = vec!['\\', '"'];
    assert(escape@ =~= seq!['\\', '"']);
    let out = replace_char(&chars, '"', &escape);
    string_from_chars(&out)
}

/// A quoted title read back: a backslash directly before a double quote is
/// dropped, every other character is kept.
pub open spec fn unquoted(q: Seq<char>) -> Seq<char>
    decreases q.len(),
{
    if q.len() == 0 {
        q
    } else if q.len() >= 2 && q[0] == '\\' && q[1] == '"' {
        seq!['"'] + unquoted(q.skip(2))
    } else {
        seq![q[0]] + unquoted(q.skip(1))
    }
}

proof fn lemma_quoted_title_front(title: Seq<char>)
    requires
        title.len() > 0,
    ensures
        quoted_title(title) == (if title[0] == '"' {
            seq!['\\', '"']
        } else {
            seq![title[0]]
        }) + quoted_title(title.drop_first()),
{
    let head = seq![title[0]];
    assert(title =~= head + title.drop_first());
    lemma_replaced_concat(head, title.drop_first(), '"', seq!['\\', '"']);
    assert(head.drop_last() =~= Seq::<char>::empty());
    assert(replaced(head.drop_last(), '"', seq!['\\', '"']) =~= Seq::<char>::empty());
}

/// Quoting a title only puts a backslash before each double quote: reading
/// the quoted title back gives the title, and a title without double quotes
/// is left as it is.
pub proof fn lemma_quoted_title_reads_back(title: Seq<char>)
    ensures
        unquoted(quoted_title(title)) == title,
        (forall|i: int| 0 <= i < title.len() ==> #[trigger] title[i] != '"') ==> quoted_title(
            title,
        ) == title,
    decreases title.len(),
{
    if forall|i: int| 0 <= i < title.len() ==> #[trigger] title[i] != '"' {
        lemma_replaced_absent(title, '"', seq!['\\', '"']);
    }
    if title.len() == 0 {
        assert(quoted_title(title) =~= Seq::<char>::empty());
    } else {
        let rest = title.drop_first();
        lemma_quoted_title_reads_back(rest);
        lemma_quoted_title_front(title);
        let q = quoted_title(title);
        let qr = quoted_title(rest);
        if rest.len() > 0 {
            lemma_quoted_title_front(rest);
            assert(qr[0] != '"');
        }
        if title[0] == '"' {
            assert(q.skip(2) =~= qr);
            assert(unquoted(q) == seq!['"'] + unquoted(qr));
        } else {
            assert(q.skip(1) =~= qr);
            assert(unquoted(q) == seq![title[0]] + unquoted(qr));
        }
        assert(title =~= seq![title[0]] + rest);
    }
}

/// The event that refuses a scan of a path that is no directory.
pub open spec fn missing_path_event_of(path: Seq<char>) -> Seq<char> {
    event_of(
        "{\"error\":\"Path '"@ + path + "' does not exist or is not a directory\"}"@,
    )
}

/// The event a scan of `path` answers where `path_exists` or `is_dir` says the
/// path is no directory, else `None` (the scan may start).
pub fn check_scan_path(path: &str, path_exists: bool, is_dir: bool) -> (r: Option<String>)
    ensures
        match r {
            Some(e) => !(path_exists && is_dir) && e@ == missing_path_event_of(path@),
            None => path_exists && is_dir,
        },
{
    if !path_exists || !is_dir {
        let mut m = String::from_str("{\"error\":\"Path '");
        m.append(path);
        m.append("' does not exist or is not a directory\"}");
        Some(sse_event(m.as_str()))
    } else {
        None
    }
}

/// The event that stops a scan when the genre list could not be stored.
pub open spec fn genre_error_event_of(error: Seq<char>) -> Seq<char> {
    event_of("{\"error\":\"Failed to save genres: "@ + error + "\"}"@)
}

/// The event that stops a scan when the genre list could not be stored.
pub fn genre_error_event(error: &str) -> (r: String)
    ensures
        r@ == genre_error_event_of(error@),
{
    let mut m = String::from_str("{\"error\":\"Failed to save genres: ");
    m.append(error);
    m.append("\"}");
    sse_event(m.as_str())
}

/// The event that stops a scan when its source could not be recorded.
pub open spec fn source_error_event_of(error: Seq<char>) -> Seq<char> {
    event_of("{\"error\":\"Failed to create source: "@ + error + "\"}"@)
}

/// The event that stops a scan when its source could not be recorded.
pub fn source_error_event(error: &str) -> (r: String)
    ensures
        r@ == source_error_event_of(error@),
{
    let mut m = String::from_str("{\"error\":\"Failed to create source: ");
    m.append(error);
    m.append("\"}");
    sse_event(m.as_str())
}

/// The count a scan announces for `file_count` matching files (a 32-bit
/// count, taken modulo 2^32).
pub open spec fn announced_total(file_count: nat) -> nat {
    file_count % 0x1_0000_0000
}

/// The message announcing the number of files of a scan.
pub open spec fn total_message_of(total: nat) -> Seq<char> {
    "{\"total\":"@ + decimal(total) + "}"@
}

/// The message after a file: counts so far and the file's title.
pub open spec fn progress_message_of(
    processed: nat,
    total: nat,
    added: nat,
    skipped: nat,
    title: Seq<char>,
) -> Seq<char> {
    "{\"processed\":"@ + decimal(processed) + ",\"total\":"@ + decimal(total) + ",\"added\":"@
        + decimal(added) + ",\"skipped\":"@ + decimal(skipped) + ",\"current\":\""@
        + quoted_title(title) + "\"}"@
}

/// The message that ends a scan.
pub open spec fn done_message_of(added: nat, skipped: nat) -> Seq<char> {
    "{\"done\":true,\"added\":"@ + decimal(added) + ",\"skipped\":"@ + decimal(skipped) + "}"@
}

/// `x` is a decimal numeral, ASCII digits only, of the value `n`.
pub open spec fn reads_as(x: Seq<char>, n: nat) -> bool {
    &&& x.len() > 0
    &&& forall|i: int| 0 <= i < x.len() ==> is_ascii_digit(#[trigger] x[i])
    &&& digits_value(x) == n
}

/// The messages of a scan carry the counts themselves: the number in the
/// opening message reads as the announced total, and the numbers of the
/// closing message read as the added and skipped counts.
pub proof fn lemma_count_messages_read_back(total: nat, added: nat, skipped: nat)
    ensures
        exists|x: Seq<char>|
            #[trigger] reads_as(x, total) && total_message_of(total) == "{\"total\":"@ + x + "}"@,
        exists|x: Seq<char>, y: Seq<char>|
            #![trigger reads_as(x, added), reads_as(y, skipped)]
            reads_as(x, added) && reads_as(y, skipped) && done_message_of(added, skipped)
                == "{\"done\":true,\"added\":"@ + x + ",\"skipped\":"@ + y + "}"@,
{
    lemma_decimal(total);
    lemma_decimal(added);
    lemma_decimal(skipped);
    assert(reads_as(decimal(total), total));
    assert(reads_as(decimal(added), added));
    assert(reads_as(decimal(skipped), skipped));
}

/// A progress message carries the counts themselves and the title: its
/// numbers read as the files taken in hand, announced, added and skipped,
/// and its title field reads back as the title.
pub proof fn lemma_progress_message_reads_back(
    processed: nat,
    total: nat,
    added: nat,
    skipped: nat,
    title: Seq<char>,
)
    ensures
        exists|w: Seq<char>, x: Seq<char>, y: Seq<char>, z: Seq<char>, q: Seq<char>|
            #![trigger reads_as(w, processed), reads_as(x, total), reads_as(y, added), reads_as(z, skipped), unquoted(q)]
            reads_as(w, processed) && reads_as(x, total) && reads_as(y, added) && reads_as(
                z,
                skipped,
            ) && unquoted(q) == title && progress_message_of(
                processed,
                total,
                added,
                skipped,
                title,
            ) == "{\"processed\":"@ + w + ",\"total\":"@ + x + ",\"added\":"@ + y
                + ",\"skipped\":"@ + z + ",\"current\":\""@ + q + "\"}"@,
{
    lemma_decimal(processed);
    lemma_decimal(total);
    lemma_decimal(added);
    lemma_decimal(skipped);
    lemma_quoted_title_reads_back(title);
    assert(reads_as(decimal(processed), processed));
    assert(reads_as(decimal(total), total));
    assert(reads_as(decimal(added), added));
    assert(reads_as(decimal(skipped), skipped));
    assert(unquoted(quoted_title(title)) == title);
}

/// What the check whether a file is already in the library found.
pub enum Presence {
    /// The check failed.
    Unknown,
    /// The file of this source is already stored.
    Present,
    /// The file is new.
    Absent,
}

/// What a scan does next with a file.
pub enum FileStep {
    /// Go on with the next file without a message.
    Skip,
    /// Send this progress message, then go on with the next file.
    Report(String),
    /// Look the movie up and store it, then report with `record_lookup`.
    LookUp,
}

/// How the handling of one file of a scan ended.
pub enum FileOutcome {
    /// The check whether it is stored failed.
    CheckFailed,
    /// It was stored already.
    AlreadyStored,
    /// It was looked up; `true` where the movie was found and stored.
    LookedUp(bool),
}

/// The counts of a scan: files announced, taken in hand, stored, skipped.
pub struct ScanCounts {
    pub total: nat,
    pub processed: nat,
    pub added: nat,
    pub skipped: nat,
}

/// The counts after one more file.
pub open spec fn counts_after_file(c: ScanCounts, outcome: FileOutcome) -> ScanCounts {
    ScanCounts {
        total: c.total,
        processed: c.processed + 1,
        added: c.added + if outcome == FileOutcome::LookedUp(true) {
            1nat
        } else {
            0
        },
        skipped: c.skipped + if outcome is AlreadyStored {
            1nat
        } else {
            0
        },
    }
}

/// The counts after the files with `outcomes`, in order.
pub open spec fn counts_after(c: ScanCounts, outcomes: Seq<FileOutcome>) -> ScanCounts
    decreases outcomes.len(),
{
    if outcomes.len() == 0 {
        c
    } else {
        counts_after_file(counts_after(c, outcomes.drop_last()), outcomes.last())
    }
}

/// The counts at the start of a scan of `file_count` files.
pub open spec fn initial_counts(file_count: nat) -> ScanCounts {
    ScanCounts { total: announced_total(file_count), processed: 0, added: 0, skipped: 0 }
}

/// How many of `outcomes` satisfy `pred`.
pub open spec fn count_where(outcomes: Seq<FileOutcome>, pred: spec_fn(FileOutcome) -> bool) -> nat
    decreases outcomes.len(),
{
    if outcomes.len() == 0 {
        0
    } else {
        count_where(outcomes.drop_last(), pred) + if pred(outcomes.last()) {
            1nat
        } else {
            0
        }
    }
}

proof fn lemma_count_where_bound(outcomes: Seq<FileOutcome>, pred: spec_fn(FileOutcome) -> bool)
    ensures
        count_where(outcomes, pred) <= outcomes.len(),
    decreases outcomes.len(),
{
    if outcomes.len() > 0 {
        lemma_count_where_bound(outcomes.drop_last(), pred);
    }
}

/// What the counts of a scan report: after the files with `outcomes` every
/// file is counted once, the stored ones as added and the ones found stored
/// as skipped, and no file is both. Where the scan has fewer than 2^32 files
/// and no more outcomes than files, no more are counted than announced.
pub proof fn lemma_scan_counts(file_count: nat, outcomes: Seq<FileOutcome>)
    ensures
        counts_after(initial_counts(file_count), outcomes).total == announced_total(file_count),
        counts_after(initial_counts(file_count), outcomes).processed == outcomes.len(),
        counts_after(initial_counts(file_count), outcomes).added == count_where(
            outcomes,
            |o: FileOutcome| o == FileOutcome::LookedUp(true),
        ),
        counts_after(initial_counts(file_count), outcomes).skipped == count_where(
            outcomes,
            |o: FileOutcome| o is AlreadyStored,
        ),
        counts_after(initial_counts(file_count), outcomes).added + counts_after(
            initial_counts(file_count),
            outcomes,
        ).skipped <= outcomes.len(),
        file_count < 0x1_0000_0000 && outcomes.len() <= file_count ==> counts_after(
            initial_counts(file_count),
            outcomes,
        ).processed <= counts_after(initial_counts(file_count), outcomes).total,
    decreases outcomes.len(),
{
    let stored = |o: FileOutcome| o == FileOutcome::LookedUp(true);
    let present = |o: FileOutcome| o is AlreadyStored;
    let either = |o: FileOutcome| o == FileOutcome::LookedUp(true) || o is AlreadyStored;
    if outcomes.len() > 0 {
        lemma_scan_counts(file_count, outcomes.drop_last());
    }
    lemma_count_either(outcomes, stored, present, either);
    lemma_count_where_bound(outcomes, either);
}

proof fn lemma_count_either(
    outcomes: Seq<FileOutcome>,
    a: spec_fn(FileOutcome) -> bool,
    b: spec_fn(FileOutcome) -> bool,
    either: spec_fn(FileOutcome) -> bool,
)
    requires
        forall|o: FileOutcome| #[trigger] either(o) == (a(o) || b(o)),
        forall|o: FileOutcome| !(#[trigger] a(o) && b(o)),
    ensures
        count_where(outcomes, a) + count_where(outcomes, b) == count_where(outcomes, either),
    decreases outcomes.len(),
{
    if outcomes.len() > 0 {
        lemma_count_either(outcomes.drop_last(), a, b, either);
        assert(either(outcomes.last()) == (a(outcomes.last()) || b(outcomes.last())));
    }
}

/// Over a scan the counts only grow: after a longer prefix of the outcomes
/// more files are taken in hand, and no fewer are added or skipped.
pub proof fn lemma_scan_counts_grow(c: ScanCounts, outcomes: Seq<FileOutcome>, k: int, l: int)
    requires
        0 <= k < l <= outcomes.len(),
    ensures
        counts_after(c, outcomes.take(k)).processed < counts_after(c, outcomes.take(l)).processed,
        counts_after(c, outcomes.take(k)).added <= counts_after(c, outcomes.take(l)).added,
        counts_after(c, outcomes.take(k)).skipped <= counts_after(c, outcomes.take(l)).skipped,
        counts_after(c, outcomes.take(k)).total == counts_after(c, outcomes.take(l)).total,
    decreases l - k,
{
    assert(outcomes.take(l).drop_last() =~= outcomes.take(l - 1));
    if k < l - 1 {
        lemma_scan_counts_grow(c, outcomes, k, l - 1);
    }
}

/// The counts that the progress messages of a scan carry, in the order they
/// are sent: one after each file whose check did not fail, with the counts
/// after that file.
pub open spec fn reported_counts(c: ScanCounts, outcomes: Seq<FileOutcome>) -> Seq<ScanCounts>
    decreases outcomes.len(),
{
    if outcomes.len() == 0 {
        Seq::empty()
    } else if outcomes.last() is CheckFailed {
        reported_counts(c, outcomes.drop_last())
    } else {
        reported_counts(c, outcomes.drop_last()).push(counts_after(c, outcomes))
    }
}

proof fn lemma_reported_counts(file_count: nat, outcomes: Seq<FileOutcome>)
    ensures
        ({
            let r = reported_counts(initial_counts(file_count), outcomes);
            let fin = counts_after(initial_counts(file_count), outcomes);
            &&& r.len() <= outcomes.len()
            &&& forall|i: int, j: int|
                0 <= i < j < r.len() ==> #[trigger] r[i].processed < #[trigger] r[j].processed
                    && r[i].added <= r[j].added && r[i].skipped <= r[j].skipped
            &&& forall|i: int|
                0 <= i < r.len() ==> 1 <= #[trigger] r[i].processed <= fin.processed
                    && r[i].added <= fin.added && r[i].skipped <= fin.skipped && r[i].added
                    + r[i].skipped <= r[i].processed && r[i].total == fin.total
            &&& r.len() > 0 ==> fin.added == r.last().added && fin.skipped == r.last().skipped
            &&& r.len() == 0 ==> fin.added == 0 && fin.skipped == 0
        }),
    decreases outcomes.len(),
{
    lemma_scan_counts(file_count, outcomes);
    if outcomes.len() > 0 {
        let p = outcomes.drop_last();
        lemma_reported_counts(file_count, p);
        lemma_scan_counts(file_count, p);
    }
}

/// What the messages of a scan report. Over its progress messages the count
/// of files taken in hand rises with every message and stays between 1 and
/// the number of files; the added and skipped counts never fall, and together
/// never exceed the files taken in hand. Where the scan has fewer than 2^32
/// files, and one outcome per file, no message counts more files than
/// announced. The closing message repeats the added and skipped counts of the
/// last progress message (both 0 where there was none), and together they do
/// not exceed the number of files.
pub proof fn lemma_scan_messages(file_count: nat, outcomes: Seq<FileOutcome>)
    ensures
        ({
            let r = reported_counts(initial_counts(file_count), outcomes);
            let fin = counts_after(initial_counts(file_count), outcomes);
            &&& forall|i: int, j: int|
                0 <= i < j < r.len() ==> #[trigger] r[i].processed < #[trigger] r[j].processed
                    && r[i].added <= r[j].added && r[i].skipped <= r[j].skipped
            &&& forall|i: int|
                0 <= i < r.len() ==> 1 <= #[trigger] r[i].processed <= outcomes.len()
                    && r[i].added + r[i].skipped <= r[i].processed && r[i].total
                    == announced_total(file_count)
            &&& (file_count < 0x1_0000_0000 && outcomes.len() == file_count) ==> forall|i: int|
                0 <= i < r.len() ==> #[trigger] r[i].processed <= r[i].total
            &&& done_message_of(fin.added, fin.skipped) == if r.len() > 0 {
                done_message_of(r.last().added, r.last().skipped)
            } else {
                done_message_of(0, 0)
            }
            &&& fin.added + fin.skipped <= outcomes.len()
        }),
{
    lemma_reported_counts(file_count, outcomes);
    lemma_scan_counts(file_count, outcomes);
}

/// A rescan that finds every file stored already adds nothing and skips
/// them all: its closing message reports 0 added and every file skipped, and
/// no file is looked up.
pub proof fn lemma_rescan_adds_nothing(file_count: nat, outcomes: Seq<FileOutcome>)
    requires
        forall|i: int| 0 <= i < outcomes.len() ==> #[trigger] outcomes[i] is AlreadyStored,
    ensures
        counts_after(initial_counts(file_count), outcomes).added == 0,
        counts_after(initial_counts(file_count), outcomes).skipped == outcomes.len(),
        counts_after(initial_counts(file_count), outcomes).processed == outcomes.len(),
        done_message_of(
            counts_after(initial_counts(file_count), outcomes).added,
            counts_after(initial_counts(file_count), outcomes).skipped,
        ) == done_message_of(0, outcomes.len()),
    decreases outcomes.len(),
{
    if outcomes.len() > 0 {
        let p = outcomes.drop_last();
        assert forall|i: int| 0 <= i < p.len() implies #[trigger] p[i] is AlreadyStored by {
            assert(p[i] == outcomes[i]);
        }
        assert(outcomes[outcomes.len() - 1] is AlreadyStored);
        lemma_rescan_adds_nothing(file_count, p);
    }
}

/// The counts of a running scan.
pub struct ScanProgress {
    total: u32,
    processed: u32,
    added: u32,
    skipped: u32,
}

impl ScanProgress {
    /// The counts as a whole.
    pub open spec fn counts(&self) -> ScanCounts {
        ScanCounts {
            total: self.total(),
            processed: self.processed(),
            added: self.added(),
            skipped: self.skipped(),
        }
    }

    /// Number of files the scan announced.
    pub closed spec fn total(&self) -> nat {
        self.total as nat
    }

    /// Files taken in hand so far.
    pub closed spec fn processed(&self) -> nat {
        self.processed as nat
    }

    /// Files stored so far.
    pub closed spec fn added(&self) -> nat {
        self.added as nat
    }

    /// Files found already stored so far.
    pub closed spec fn skipped(&self) -> nat {
        self.skipped as nat
    }

    /// The counts are consistent: no file is both stored and skipped, and
    /// none is counted that was not taken in hand.
    pub closed spec fn wf(&self) -> bool {
        self.added + self.skipped <= self.processed
    }

    /// A scan of `file_count` matching files, before the first file.
    pub fn new(file_count: usize) -> (p: ScanProgress)
        ensures
            p.wf(),
            p.counts() == initial_counts(file_count as nat),
            p.total() == announced_total(file_count as nat),
            p.processed() == 0,
            p.added() == 0,
            p.skipped() == 0,
    {
        let total: u32 = ((file_count as u64) % 0x1_0000_0000u64) as u32;
        ScanProgress { total, processed: 0, added: 0, skipped: 0 }
    }

    /// Files taken in hand so far.
    pub fn processed_count(&self) -> (n: u32)
        ensures
            n == self.processed(),
    {
        self.processed
    }

    /// The message that opens the scan.
    pub fn total_message(&self) -> (r: String)
        ensures
            r@ == total_message_of(self.total()),
    {
        let mut m = String::from_str("{\"total\":");
        let n = decimal_string(self.total as u64);
        m.append(n.as_str());
        m.append("}");
        m
    }

    fn progress_message(&self, title: &str) -> (r: String)
        ensures
            r@ == progress_message_of(
                self.processed(),
                self.total(),
                self.added(),
                self.skipped(),
                title@,
            ),
    {
        let mut m = String::from_str("{\"processed\":");
        m.append(decimal_string(self.processed as u64).as_str());
        m.append(",\"total\":");
        m.append(decimal_string(self.total as u64).as_str());
        m.append(",\"added\":");
        m.append(decimal_string(self.added as u64).as_str());
        m.append(",\"skipped\":");
        m.append(decimal_string(self.skipped as u64).as_str());
        m.append(",\"current\":\"");
        m.append(quote_title(title).as_str());
        m.append("\"}");
        m
    }

    /// Takes the next file, titled `title`, in hand once the check whether
    /// it is stored has answered `presence`: a failed check passes over the
    /// file without a message, a stored file counts as skipped and is
    /// reported, a new file is to be looked up.
    pub fn record_presence(&mut self, presence: Presence, title: &str) -> (step: FileStep)
        requires
            old(self).wf(),
            old(self).processed() < u32::MAX,
        ensures
            final(self).wf(),
            final(self).total() == old(self).total(),
            final(self).processed() == old(self).processed() + 1,
            final(self).added() == old(self).added(),
            final(self).skipped() == old(self).skipped() + if presence is Present {
                1int
            } else {
                0
            },
            match presence {
                Presence::Unknown => step is Skip,
                Presence::Present => step matches FileStep::Report(m) && m@ == progress_message_of(
                    final(self).processed(),
                    final(self).total(),
                    final(self).added(),
                    final(self).skipped(),
                    title@,
                ),
                Presence::Absent => step is LookUp && final(self).added() + final(self).skipped()
                    < final(self).processed(),
            },
            presence is Unknown ==> final(self).counts() == counts_after_file(
                old(self).counts(),
                FileOutcome::CheckFailed,
            ),
            presence is Present ==> final(self).counts() == counts_after_file(
                old(self).counts(),
                FileOutcome::AlreadyStored,
            ),
    {
        self.processed = self.processed + 1;
        match presence {
            Presence::Unknown => FileStep::Skip,
            Presence::Present => {
                self.skipped = self.skipped + 1;
                FileStep::Report(self.progress_message(title))
            },
            Presence::Absent => FileStep::LookUp,
        }
    }

    /// Reports the file titled `title` once its lookup is over; `stored`
    /// says whether the movie was found and stored.
    pub fn record_lookup(&mut self, stored: bool, title: &str) -> (m: String)
        requires
            old(self).wf(),
            old(self).added() + old(self).skipped() < old(self).processed(),
        ensures
            final(self).wf(),
            final(self).counts() == counts_after_file(
                ScanCounts { processed: (old(self).processed() - 1) as nat, ..old(self).counts() },
                FileOutcome::LookedUp(stored),
            ),
            final(self).total() == old(self).total(),
            final(self).processed() == old(self).processed(),
            final(self).skipped() == old(self).skipped(),
            final(self).added() == old(self).added() + if stored {
                1int
            } else {
                0
            },
            m@ == progress_message_of(
                final(self).processed(),
                final(self).total(),
                final(self).added(),
                final(self).skipped(),
                title@,
            ),
    {
        if stored {
            self.added = self.added + 1;
        }
        self.progress_message(title)
    }

    /// The message that ends the scan.
    pub fn done_message(&self) -> (r: String)
        ensures
            r@ == done_message_of(self.added(), self.skipped()),
    {
        let mut m = String::from_str("{\"done\":true,\"added\":");
        m.append(decimal_string(self.added as u64).as_str());
        m.append(",\"skipped\":");
        m.append(decimal_string(self.skipped as u64).as_str());
        m.append("}");
        m
    }
}


/// Whether the path `path` lies under `base`, comparing whole path
/// components (`std::path::Path::starts_with`).
pub uninterp spec fn path_under(path: Seq<char>, base: Seq<char>) -> bool;

/// `Path::new(path).starts_with(base)`. Claims only that the result is
/// `path_under` of the two paths.
#[verifier::external_body]
fn path_starts_with(path: &str, base: &str) -> (b: bool)
    ensures
        b == path_under(path@, base@),
{
    std::path::Path::new(path).starts_with(base)
}

/// A mounted volume: where it is mounted and its name.
pub struct Volume {
    pub mount_point: String,
    pub name: String,
}

/// Index of the first volume from `from` on under whose mount point `path`
/// lies.
pub open spec fn first_volume_of(path: Seq<char>, volumes: Seq<Volume>, from: int) -> Option<int>
    decreases volumes.len() - from,
{
    if from < 0 || from >= volumes.len() {
        None
    } else if path_under(path, volumes[from].mount_point@) {
        Some(from)
    } else {
        first_volume_of(path, volumes, from + 1)
    }
}

/// The label a scanned path gets: the name of the first volume under whose
/// mount point it lies, unless that name is empty.
pub open spec fn volume_label_of(path: Seq<char>, volumes: Seq<Volume>) -> Option<Seq<char>> {
    match first_volume_of(path, volumes, 0) {
        Some(i) => if volumes[i].name@.len() > 0 {
            Some(volumes[i].name@)
        } else {
            None
        },
        None => None,
    }
}

proof fn lemma_first_volume(path: Seq<char>, volumes: Seq<Volume>, from: int, i: int)
    requires
        0 <= from <= i <= volumes.len(),
        forall|j: int| from <= j < i ==> !path_under(path, #[trigger] volumes[j].mount_point@),
        i == volumes.len() || path_under(path, volumes[i].mount_point@),
    ensures
        first_volume_of(path, volumes, from) == if i == volumes.len() {
            None
        } else {
            Some(i)
        },
    decreases i - from,
{
    if from < i {
        lemma_first_volume(path, volumes, from + 1, i);
    }
}

/// The label of a scanned `path`: the name of the first of `volumes` under
/// whose mount point it lies, where that name is not empty.
pub fn volume_label(path: &str, volumes: &Vec<Volume>) -> (r: Option<String>)
    ensures
        match (r, volume_label_of(path@, volumes@)) {
            (Some(l), Some(m)) => l@ == m,
            (None, None) => true,
            _ => false,
        },
{
    let n = volumes.len();
    for i in 0..n
        invariant
            n == volumes@.len(),
            forall|j: int| 0 <= j < i ==> !path_under(path@, #[trigger] volumes@[j].mount_point@),
    {
        if path_starts_with(path, volumes[i].mount_point.as_str()) {
            proof {
                lemma_first_volume(path@, volumes@, 0, i as int);
            }
            if volumes[i].name.as_str().is_empty() {
                return None;
            }
            return Some(volumes[i].name.clone());
        }
    }
    proof {
        lemma_first_volume(path@, volumes@, 0, n as int);
    }
    None
}


/// In a title quoted for a progress message every double quote has a
/// backslash before it, so the title cannot end the JSON string early.
pub proof fn lemma_quoted_title_escapes_quotes(title: Seq<char>)
    ensures
        forall|i: int|
            0 <= i < quoted_title(title).len() && #[trigger] quoted_title(title)[i] == '"' ==> i > 0
                && quoted_title(title)[i - 1] == '\\',
    decreases title.len(),
{
    if title.len() > 0 {
        let p = title.drop_last();
        lemma_quoted_title_escapes_quotes(p);
        let head = quoted_title(p);
        let q = quoted_title(title);
        assert forall|i: int| 0 <= i < q.len() && #[trigger] q[i] == '"' implies i > 0 && q[i - 1]
            == '\\' by {
            if i < head.len() {
                assert(q[i] == head[i]);
                assert(q[i - 1] == head[i - 1]);
            } else if title.last() == '"' {
                assert(q[head.len() as int] == '\\');
                assert(i == head.len() + 1);
            } else {
                assert(q[i] == title.last());
            }
        }
    }
}


/// What a scan does with the source record of its folder.
pub enum SourceStep {
    /// The folder is recorded already under this id: use it.
    Reuse(i64),
    /// The folder is not recorded yet: record it, with its volume label.
    Record,
}

/// The source record of a scanned folder, given the id the store holds for
/// the folder's path, if any: each path is recorded once and reused by every
/// later scan of it.
pub fn source_step(recorded: Option<i64>) -> (step: SourceStep)
    ensures
        match recorded {
            Some(id) => step == SourceStep::Reuse(id),
            None => step is Record,
        },
{
    match recorded {
        Some(id) => SourceStep::Reuse(id),
        None => SourceStep::Record,
    }
}

} // verus!
