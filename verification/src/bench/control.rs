//! The lines by which the processes of a run understand each other.
use super::error::BenchError;
use super::publish;
use crate::text;
use crate::text::Cut;
use vstd::prelude::*;

verus! {

/// What a look at the output of a child process gives.
#[derive(Debug)]
pub enum ChildEvent {
    Line(String),
    /// Nothing yet.
    Empty,
    /// The output has ended.
    Disconnected,
}

/// Which of the expected reports have come in.
#[derive(Debug)]
pub struct Handshake {
    marks: Vec<String>,
}

spec fn mark_texts(marks: Seq<String>) -> Seq<Seq<char>> {
    marks.map_values(|mark: String| mark@)
}

impl View for Handshake {
    type V = Set<Seq<char>>;

    closed spec fn view(&self) -> Set<Seq<char>> {
        mark_texts(self.marks@).to_set()
    }
}

/// The processes that take part in a run.
pub open spec fn is_role(role: Seq<char>) -> bool {
    role == "subscriber"@ || role == "publisher"@
}

/// What is kept of a process that is ready.
pub open spec fn ready_mark(role: Seq<char>) -> Seq<char> {
    "ready-"@ + role
}

/// What is kept of a process that has found the other.
pub open spec fn matched_mark(role: Seq<char>) -> Seq<char> {
    "matched-"@ + role
}

/// All that is waited for: both processes are ready and have found each other.
pub open spec fn all_marks() -> Set<Seq<char>> {
    Set::empty().insert(ready_mark("subscriber"@)).insert(matched_mark("subscriber"@)).insert(
        ready_mark("publisher"@),
    ).insert(matched_mark("publisher"@))
}

proof fn lemma_all_marks()
    ensures
        all_marks().finite(),
        all_marks().len() == 4,
{
    reveal_strlit("ready-");
    reveal_strlit("matched-");
    reveal_strlit("subscriber");
    reveal_strlit("publisher");
    let ready_subscriber = ready_mark("subscriber"@);
    let matched_subscriber = matched_mark("subscriber"@);
    let ready_publisher = ready_mark("publisher"@);
    let matched_publisher = matched_mark("publisher"@);
    assert(ready_subscriber[0] == 'r' && ready_publisher[0] == 'r');
    assert(matched_subscriber[0] == 'm' && matched_publisher[0] == 'm');
    assert(ready_subscriber[6] == 's' && ready_publisher[6] == 'p');
    assert(matched_subscriber[8] == 's' && matched_publisher[8] == 'p');
}

/// Where nothing but the marks that are waited for is kept, four of them are
/// all.
pub proof fn law_four_marks_are_all(marks: Set<Seq<char>>)
    requires
        marks.subset_of(all_marks()),
    ensures
        marks.len() < 4 <==> marks != all_marks(),
{
    lemma_all_marks();
    vstd::set_lib::lemma_len_subset(marks, all_marks());
    if marks.len() == 4 {
        vstd::set_lib::lemma_subset_equality(marks, all_marks());
    }
}

/// How far the waiting for the child processes has come.
#[derive(Debug, Clone, Copy, PartialEq, Eq, Structural)]
pub enum Progress {
    Wait,
    Proceed,
    TimedOut,
}

impl Handshake {
    /// No report is kept twice.
    pub closed spec fn wf(&self) -> bool {
        mark_texts(self.marks@).no_duplicates()
    }

    /// Nothing is kept but what is waited for.
    pub open spec fn keeps_expected(&self) -> bool {
        self@.subset_of(all_marks())
    }

    pub fn new() -> (r: Self)
        ensures
            r.wf(),
            r.keeps_expected(),
            r@ == Set::<Seq<char>>::empty(),
    {
        let r = Handshake { marks: Vec::new() };
        assert(r@ =~= Set::empty());
        r
    }

    /// How many reports have come in.
    pub fn len(&self) -> (r: usize)
        requires
            self.wf(),
        ensures
            r == self@.len(),
    {
        proof {
            mark_texts(self.marks@).unique_seq_to_set();
        }
        self.marks.len()
    }

    /// Keeps a report.
    pub fn insert(&mut self, mark: String)
        requires
            old(self).wf(),
        ensures
            final(self).wf(),
            final(self)@ == old(self)@.insert(mark@),
    {
        let ghost before = mark_texts(self.marks@);
        let mut i: usize = 0;
        while i < self.marks.len()
            invariant
                i <= self.marks.len(),
                self.marks@ == old(self).marks@,
                before == mark_texts(self.marks@),
                before.no_duplicates(),
                forall|j: int| 0 <= j < i ==> before[j] != mark@,
            decreases self.marks.len() - i,
        {
            if text::same_text(self.marks[i].as_str(), mark.as_str()) {
                assert(before[i as int] == mark@);
                assert(self@ =~= old(self)@.insert(mark@));
                return ;
            }
            i = i + 1;
        }
        let ghost added = mark@;
        self.marks.push(mark);
        proof {
            let after = mark_texts(self.marks@);
            assert(after =~= before.push(added));
            assert forall|x: Seq<char>| #[trigger] self@.contains(x) <==> old(self)@.insert(
                added,
            ).contains(x) by {
                if before.contains(x) {
                    let j = choose|j: int| 0 <= j < before.len() && before[j] == x;
                    assert(after[j] == x);
                }
                assert(after[before.len() as int] == added);
                if after.contains(x) && x != added {
                    let j = choose|j: int| 0 <= j < after.len() && after[j] == x;
                    assert(before[j] == x);
                }
            }
            assert(self@ =~= old(self)@.insert(added));
        }
    }

    /// Both processes are ready and matched when four reports have come in; the
    /// time may be over before.
    pub fn progress(&self, past_deadline: bool) -> (r: Progress)
        requires
            self.wf(),
        ensures
            r == if past_deadline {
                Progress::TimedOut
            } else if self@.len() < 4 {
                Progress::Wait
            } else {
                Progress::Proceed
            },
            self.keeps_expected() && !past_deadline ==> (r is Proceed <==> self@ == all_marks()),
    {
        proof {
            if self.keeps_expected() {
                law_four_marks_are_all(self@);
            }
        }
        if past_deadline {
            Progress::TimedOut
        } else if self.len() < 4 {
            Progress::Wait
        } else {
            Progress::Proceed
        }
    }
}

/// The results are there when both processes have reported; the time may be
/// over before.
pub fn result_progress(has_result: bool, has_sent: bool, past_deadline: bool) -> (r: Progress)
    ensures
        r == if past_deadline {
            Progress::TimedOut
        } else if has_result && has_sent {
            Progress::Proceed
        } else {
            Progress::Wait
        },
{
    if past_deadline {
        Progress::TimedOut
    } else if has_result && has_sent {
        Progress::Proceed
    } else {
        Progress::Wait
    }
}

/// How far the stopping of a process has come that was asked to end: it has
/// ended, or is waited for, or has had its time and is to be killed.
pub fn stop_progress(exited: bool, past_deadline: bool) -> (r: Progress)
    ensures
        r == if past_deadline {
            Progress::TimedOut
        } else if exited {
            Progress::Proceed
        } else {
            Progress::Wait
        },
{
    if past_deadline {
        Progress::TimedOut
    } else if exited {
        Progress::Proceed
    } else {
        Progress::Wait
    }
}

/// How long the results of a case may take, in seconds.
pub fn result_timeout_seconds(timeout_seconds: u64) -> (r: u64)
    ensures
        r == if timeout_seconds + 5 <= u64::MAX {
            timeout_seconds + 5
        } else {
            u64::MAX as int
        },
{
    timeout_seconds.saturating_add(5)
}

/// Takes a line of a process that is starting.
pub fn receive_handshake_line(role: &str, event: ChildEvent, handshake: &mut Handshake) -> (r:
    Result<(), BenchError>)
    requires
        old(handshake).wf(),
    ensures
        final(handshake).wf(),
        old(handshake).keeps_expected() && is_role(role@) ==> final(handshake).keeps_expected(),
        match event {
            ChildEvent::Line(line) => if line@ == "READY role="@ + role@ {
                r is Ok && final(handshake)@ == old(handshake)@.insert(ready_mark(role@))
            } else if line@ == "MATCHED role="@ + role@ {
                r is Ok && final(handshake)@ == old(handshake)@.insert(matched_mark(role@))
            } else {
                &&& final(handshake)@ == old(handshake)@
                &&& if text::stands_at(line@, 0, "ERROR"@) {
                    r == Err::<(), BenchError>(BenchError::ChildReport(line))
                } else {
                    r is Ok
                }
            },
            ChildEvent::Empty => r is Ok && final(handshake)@ == old(handshake)@,
            ChildEvent::Disconnected => {
                &&& final(handshake)@ == old(handshake)@
                &&& r matches Err(BenchError::ExitedBeforeHandshake(gone)) && gone@ == role@
            },
        },
{
    match event {
        ChildEvent::Line(line) => {
            let ready = "READY role=".to_owned().concat(role);
            let matched = "MATCHED role=".to_owned().concat(role);
            if text::same_text(line.as_str(), ready.as_str()) {
                handshake.insert("ready-".to_owned().concat(role));
            } else if text::same_text(line.as_str(), matched.as_str()) {
                handshake.insert("matched-".to_owned().concat(role));
            } else if text::starts_with(line.as_str(), "ERROR") {
                return Err(BenchError::ChildReport(line));
            }
            Ok(())
        },
        ChildEvent::Empty => Ok(()),
        ChildEvent::Disconnected => Err(BenchError::ExitedBeforeHandshake(role.to_owned())),
    }
}

/// `s` without any number of `prefix` at its start.
pub open spec fn without_prefixes(s: Seq<char>, prefix: Seq<char>) -> Seq<char>
    decreases s.len(),
{
    if prefix.len() > 0 && text::stands_at(s, 0, prefix) {
        without_prefixes(s.skip(prefix.len() as int), prefix)
    } else {
        s
    }
}

/// Takes a line of the receiving process: the result where it is one.
pub fn receive_result_line(event: ChildEvent) -> (r: Result<Option<String>, BenchError>)
    ensures
        match event {
            ChildEvent::Line(line) => if text::stands_at(line@, 0, "RESULT "@) {
                r matches Ok(Some(result)) && result@ == without_prefixes(line@, "RESULT "@)
            } else if text::stands_at(line@, 0, "ERROR"@) {
                r == Err::<Option<String>, BenchError>(BenchError::ChildReport(line))
            } else {
                r == Ok::<Option<String>, BenchError>(None)
            },
            _ => r == Ok::<Option<String>, BenchError>(None),
        },
{
    proof {
        reveal_strlit("RESULT ");
    }
    match event {
        ChildEvent::Line(line) => {
            if text::starts_with(line.as_str(), "RESULT ") {
                let mut rest: &str = line.as_str();
                let mut left: usize = rest.unicode_len();
                loop
                    invariant_except_break
                        without_prefixes(rest@, "RESULT "@) == without_prefixes(
                            line@,
                            "RESULT "@,
                        ),
                        left == rest@.len(),
                        "RESULT "@.len() == 7,
                    ensures
                        rest@ == without_prefixes(line@, "RESULT "@),
                    decreases left,
                {
                    match text::strip_prefix(rest, "RESULT ") {
                        Some(next) => {
                            rest = next;
                            left = left - 7;
                        },
                        None => {
                            break;
                        },
                    }
                }
                return Ok(Some(rest.to_owned()));
            }
            if text::starts_with(line.as_str(), "ERROR") {
                return Err(BenchError::ChildReport(line));
            }
            Ok(None)
        },
        _ => Ok(None),
    }
}

/// The value behind `key` and an equals sign in the first of `fields` that
/// begins so.
pub open spec fn value_in(fields: Seq<Seq<char>>, key: Seq<char>) -> Option<Seq<char>>
    decreases fields.len(),
{
    if fields.len() == 0 {
        None
    } else if text::stands_at(fields[0], 0, key + "="@) {
        Some(fields[0].skip(key.len() as int + 1))
    } else {
        value_in(fields.skip(1), key)
    }
}

/// The value that a line gives a key.
pub open spec fn value_of(line: Seq<char>, key: Seq<char>) -> Option<Seq<char>> {
    value_in(text::fields(line, Cut::Spaces), key)
}

/// The value that a line gives a key: what stands behind the key and an equals
/// sign in the first field that begins so.
pub fn parse_value<'a>(line: &'a str, key: &str) -> (r: Option<&'a str>)
    ensures
        r is Some <==> value_of(line@, key@) is Some,
        r matches Some(value) ==> value_of(line@, key@) == Some(value@),
{
    let fields = text::split_fields(line, Cut::Spaces);
    let prefix = key.to_owned().concat("=");
    let ghost all = text::views(fields@);
    proof {
        reveal_strlit("=");
    }
    let mut i: usize = 0;
    assert(all.skip(0) =~= all);
    while i < fields.len()
        invariant
            i <= fields.len(),
            all == text::views(fields@),
            all == text::fields(line@, Cut::Spaces),
            prefix@ == key@ + "="@,
            "="@.len() == 1,
            value_of(line@, key@) == value_in(all.skip(i as int), key@),
        decreases fields.len() - i,
    {
        assert(all.skip(i as int)[0] == fields@[i as int]@);
        match text::strip_prefix(fields[i], prefix.as_str()) {
            Some(value) => {
                return Some(value);
            },
            None => {},
        }
        assert(all.skip(i as int).skip(1) =~= all.skip(i + 1));
        i = i + 1;
    }
    None
}

/// The number that a line gives a key, where it gives one of at most `max`.
pub open spec fn number_of(line: Seq<char>, key: Seq<char>, max: nat) -> Option<nat> {
    match value_of(line, key) {
        Some(value) => text::parsed(value, max),
        None => None,
    }
}

/// Takes a line of the sending process: how much it sent, where it says so.
pub fn receive_publisher_line(
    event: ChildEvent,
    messages_sent: &mut Option<u64>,
    bytes_sent: &mut Option<u128>,
) -> (r: Result<(), BenchError>)
    ensures
        match event {
            ChildEvent::Line(line) => if text::stands_at(line@, 0, "DONE "@) {
                &&& r is Ok
                &&& match *final(messages_sent) {
                    Some(n) => number_of(line@, "messages_sent"@, u64::MAX as nat) == Some(
                        n as nat,
                    ),
                    None => number_of(line@, "messages_sent"@, u64::MAX as nat) is None,
                }
                &&& match *final(bytes_sent) {
                    Some(n) => number_of(line@, "bytes_sent"@, u128::MAX as nat) == Some(n as nat),
                    None => number_of(line@, "bytes_sent"@, u128::MAX as nat) is None,
                }
            } else {
                &&& *final(messages_sent) == *old(messages_sent)
                &&& *final(bytes_sent) == *old(bytes_sent)
                &&& if text::stands_at(line@, 0, "ERROR"@) {
                    r == Err::<(), BenchError>(BenchError::ChildReport(line))
                } else {
                    r is Ok
                }
            },
            _ => {
                &&& r is Ok
                &&& *final(messages_sent) == *old(messages_sent)
                &&& *final(bytes_sent) == *old(bytes_sent)
            },
        },
{
    match event {
        ChildEvent::Line(line) => {
            if text::starts_with(line.as_str(), "DONE ") {
                *messages_sent = match parse_value(line.as_str(), "messages_sent") {
                    Some(value) => text::parse_u64(value),
                    None => None,
                };
                *bytes_sent = match parse_value(line.as_str(), "bytes_sent") {
                    Some(value) => text::parse_u128(value),
                    None => None,
                };
                return Ok(());
            }
            if text::starts_with(line.as_str(), "ERROR") {
                return Err(BenchError::ChildReport(line));
            }
            Ok(())
        },
        _ => Ok(()),
    }
}

/// Whether a line is the word that starts a run.
pub fn check_start(line: &str) -> (r: Result<(), BenchError>)
    ensures
        r is Ok <==> text::trimmed(line@) == "START"@,
        r matches Err(error) ==> error matches BenchError::ExpectedStart(got) && got@
            == text::trimmed(line@),
{
    let word = text::trim(line);
    if text::same_text(word, "START") {
        Ok(())
    } else {
        Err(BenchError::ExpectedStart(word.to_owned()))
    }
}

/// A letter or digit of ASCII as it is, and anything else as an underscore.
pub open spec fn plain_char(c: char) -> char {
    if ('a' <= c <= 'z') || ('A' <= c <= 'Z') || ('0' <= c <= '9') {
        c
    } else {
        '_'
    }
}

pub open spec fn plain(s: Seq<char>) -> Seq<char> {
    s.map_values(|c: char| plain_char(c))
}

/// A text in which everything but letters and digits of ASCII is an underscore.
pub fn sanitize(value: &str) -> (r: String)
    ensures
        r@ == plain(value@),
{
    let chars = text::chars_of(value);
    let mut s = String::new();
    let mut i: usize = 0;
    assert(plain(value@.take(0)) =~= s@);
    while i < chars.len()
        invariant
            i <= chars.len(),
            chars@ == value@,
            s@ == plain(value@.take(i as int)),
        decreases chars.len() - i,
    {
        let c = chars[i];
        let kept = ('a' <= c && c <= 'z') || ('A' <= c && c <= 'Z') || ('0' <= c && c <= '9');
        text::push_char(
            &mut s,
            if kept {
                c
            } else {
                '_'
            },
        );
        assert(s@ =~= plain(value@.take(i + 1)));
        i = i + 1;
    }
    assert(value@.take(i as int) =~= value@);
    s
}

/// The topic of one case of one run.
pub fn topic_name(run_id: &str, case_id: &str) -> (r: String)
    ensures
        r@ == "cyclonedds_bench_"@ + plain(run_id@) + "_"@ + plain(case_id@),
{
    let mut s = "cyclonedds_bench_".to_owned();
    s.append(sanitize(run_id).as_str());
    s.append("_");
    s.append(sanitize(case_id).as_str());
    s
}

/// Whether a line of the shared-memory daemon says that it could not start.
pub fn reports_startup_failure(line: &str) -> (r: bool)
    ensures
        r == (text::holds_text(line@, "Could not acquire lock"@) || text::holds_text(
            line@,
            "ICEORYX error!"@,
        ) || text::holds_text(line@, "Couldn't parse config file"@) || text::holds_text(
            line@,
            "Fatal"@,
        )),
{
    text::contains_text(line, "Could not acquire lock") || text::contains_text(
        line,
        "ICEORYX error!",
    ) || text::contains_text(line, "Couldn't parse config file") || text::contains_text(
        line,
        "Fatal",
    )
}

proof fn lemma_parts_whole(s: Seq<char>)
    requires
        forall|i: int| 0 <= i < s.len() ==> !text::is_space(#[trigger] s[i]),
    ensures
        text::parts(s, text::spaces()) == seq![s],
    decreases s.len(),
{
    if s.len() > 0 {
        let front = s.drop_last();
        assert(forall|i: int| 0 <= i < front.len() ==> front[i] == s[i]);
        lemma_parts_whole(front);
        assert(!text::is_space(s[s.len() - 1]));
        assert(front.push(s.last()) =~= s);
        assert(text::parts(s, text::spaces()) =~= seq![s]);
    } else {
        assert(s =~= Seq::empty());
    }
}

proof fn lemma_parts_nonempty(s: Seq<char>)
    ensures
        text::parts(s, text::spaces()).len() > 0,
    decreases s.len(),
{
    if s.len() > 0 {
        lemma_parts_nonempty(s.drop_last());
    }
}

/// Text behind a blank begins a new part.
proof fn lemma_parts_add(a: Seq<char>, b: Seq<char>)
    ensures
        text::parts(a + seq![' '] + b, text::spaces()) == text::parts(a, text::spaces())
            + text::parts(b, text::spaces()),
    decreases b.len(),
{
    let whole = a + seq![' '] + b;
    if b.len() == 0 {
        assert(whole.drop_last() =~= a);
        assert(text::is_space(whole.last()));
        assert(text::parts(whole, text::spaces()) =~= text::parts(a, text::spaces())
            + text::parts(b, text::spaces()));
    } else {
        let front = b.drop_last();
        lemma_parts_add(a, front);
        lemma_parts_nonempty(front);
        assert(whole.drop_last() =~= a + seq![' '] + front);
        assert(whole.last() == b.last());
        assert(text::parts(whole, text::spaces()) =~= text::parts(a, text::spaces())
            + text::parts(b, text::spaces()));
    }
}

proof fn lemma_decimal_digits(n: nat)
    ensures
        text::decimal(n).len() > 0,
        text::all_digits(text::decimal(n)),
        text::digits_value(text::decimal(n)) == n,
    decreases n,
{
    let d = n % 10;
    assert(('0' as u32 + d) as u32 as char == text::digit(d));
    assert(text::is_digit(text::digit(d)));
    assert(text::digit(d) as nat - '0' as nat == d);
    if n < 10 {
        let one = seq![text::digit(n)];
        assert(one.drop_last() =~= Seq::empty());
        reveal_with_fuel(text::digits_value, 2);
    } else {
        lemma_decimal_digits(n / 10);
        let front = text::decimal(n / 10);
        assert(front.push(text::digit(d)).drop_last() =~= front);
    }
}

/// A number that is written in decimal is read back.
pub proof fn law_decimal_is_parsed(n: nat, max: nat)
    requires
        n <= max,
    ensures
        text::parsed(text::decimal(n), max) == Some(n),
{
    lemma_decimal_digits(n);
    let s = text::decimal(n);
    assert(text::is_digit(s[0]));
    assert(text::digits_of(s) == s);
}

proof fn lemma_fields_push(parts: Seq<Seq<char>>, part: Seq<char>)
    requires
        part.len() > 0,
    ensures
        (parts + seq![part]).filter(text::nonempty()) == parts.filter(text::nonempty()).push(part),
{
    reveal(Seq::filter);
    assert((parts + seq![part]).drop_last() =~= parts);
}

proof fn lemma_field_behind(line: Seq<char>, field: Seq<char>)
    requires
        field.len() > 0,
        forall|i: int| 0 <= i < field.len() ==> !text::is_space(#[trigger] field[i]),
    ensures
        text::fields(line + seq![' '] + field, Cut::Spaces) == text::fields(
            line,
            Cut::Spaces,
        ).push(field),
{
    lemma_parts_add(line, field);
    lemma_parts_whole(field);
    lemma_fields_push(text::parts(line, text::spaces()), field);
}

proof fn lemma_no_space_add(a: Seq<char>, b: Seq<char>)
    requires
        forall|i: int| 0 <= i < a.len() ==> !text::is_space(#[trigger] a[i]),
        forall|i: int| 0 <= i < b.len() ==> !text::is_space(#[trigger] b[i]),
    ensures
        forall|i: int| 0 <= i < (a + b).len() ==> !text::is_space(#[trigger] (a + b)[i]),
{
}

proof fn lemma_digits_no_space(s: Seq<char>)
    requires
        text::all_digits(s),
    ensures
        forall|i: int| 0 <= i < s.len() ==> !text::is_space(#[trigger] s[i]),
{
    assert forall|i: int| 0 <= i < s.len() implies !text::is_space(#[trigger] s[i]) by {
        assert(text::is_digit(s[i]));
    }
}

/// What the sending process reports is what the runner reads, whatever the
/// run is called, as long as its name holds no white space.
pub proof fn law_done_line_is_understood(
    run_id: Seq<char>,
    messages_sent: u64,
    bytes_sent: u128,
    elapsed_ns: u128,
)
    requires
        forall|i: int| 0 <= i < run_id.len() ==> !text::is_space(#[trigger] run_id[i]),
    ensures
        ({
            let line = publish::done_text(
                run_id,
                messages_sent as nat,
                bytes_sent as nat,
                elapsed_ns as nat,
            );
            &&& text::stands_at(line, 0, "DONE "@)
            &&& number_of(line, "messages_sent"@, u64::MAX as nat) == Some(messages_sent as nat)
            &&& number_of(line, "bytes_sent"@, u128::MAX as nat) == Some(bytes_sent as nat)
        }),
{
    reveal_strlit("DONE role=publisher run_id=");
    reveal_strlit(" messages_sent=");
    reveal_strlit(" bytes_sent=");
    reveal_strlit(" elapsed_ns=");
    reveal_strlit("DONE ");
    reveal_strlit("DONE");
    reveal_strlit("role=publisher");
    reveal_strlit("run_id=");
    reveal_strlit("messages_sent");
    reveal_strlit("messages_sent=");
    reveal_strlit("bytes_sent");
    reveal_strlit("bytes_sent=");
    reveal_strlit("elapsed_ns=");
    reveal_strlit("=");
    let m = text::decimal(messages_sent as nat);
    let b = text::decimal(bytes_sent as nat);
    let e = text::decimal(elapsed_ns as nat);
    lemma_decimal_digits(messages_sent as nat);
    lemma_decimal_digits(bytes_sent as nat);
    lemma_decimal_digits(elapsed_ns as nat);
    lemma_digits_no_space(m);
    lemma_digits_no_space(b);
    lemma_digits_no_space(e);
    let f0 = "DONE"@;
    let f1 = "role=publisher"@;
    let f2 = "run_id="@ + run_id;
    let f3 = "messages_sent="@ + m;
    let f4 = "bytes_sent="@ + b;
    let f5 = "elapsed_ns="@ + e;
    lemma_no_space_add("run_id="@, run_id);
    lemma_no_space_add("messages_sent="@, m);
    lemma_no_space_add("bytes_sent="@, b);
    lemma_no_space_add("elapsed_ns="@, e);
    let l1 = f0 + seq![' '] + f1;
    let l2 = l1 + seq![' '] + f2;
    let l3 = l2 + seq![' '] + f3;
    let l4 = l3 + seq![' '] + f4;
    let l5 = l4 + seq![' '] + f5;
    let line = publish::done_text(
        run_id,
        messages_sent as nat,
        bytes_sent as nat,
        elapsed_ns as nat,
    );
    assert(l2 =~= "DONE role=publisher run_id="@ + run_id);
    assert(l3 =~= "DONE role=publisher run_id="@ + run_id + " messages_sent="@ + m);
    assert(l4 =~= "DONE role=publisher run_id="@ + run_id + " messages_sent="@ + m
        + " bytes_sent="@ + b);
    assert(line =~= l5);
    assert(line.subrange(0, 5) =~= "DONE "@);
    lemma_parts_whole(f0);
    let fields = text::fields(line, Cut::Spaces);
    assert(fields == seq![f0, f1, f2, f3, f4, f5]) by {
        reveal_with_fuel(Seq::filter, 2);
        assert(seq![f0].drop_last() =~= Seq::empty());
        assert(text::fields(f0, Cut::Spaces) =~= seq![f0]);
        lemma_field_behind(f0, f1);
        lemma_field_behind(l1, f2);
        lemma_field_behind(l2, f3);
        lemma_field_behind(l3, f4);
        lemma_field_behind(l4, f5);
        assert(fields =~= seq![f0, f1, f2, f3, f4, f5]);
    }
    law_decimal_is_parsed(messages_sent as nat, u64::MAX as nat);
    law_decimal_is_parsed(bytes_sent as nat, u128::MAX as nat);
    let k1 = "messages_sent"@ + "="@;
    let k2 = "bytes_sent"@ + "="@;
    assert(k1 =~= "messages_sent="@);
    assert(k2 =~= "bytes_sent="@);
    assert(f3.subrange(0, k1.len() as int) =~= k1);
    assert(f3.skip("messages_sent"@.len() as int + 1) =~= m);
    assert(f4.subrange(0, k2.len() as int) =~= k2);
    assert(f4.skip("bytes_sent"@.len() as int + 1) =~= b);
    lemma_not_at(f0, k1, 0);
    lemma_not_at(f1, k1, 0);
    lemma_not_at(f2, k1, 0);
    lemma_not_at(f0, k2, 0);
    lemma_not_at(f1, k2, 0);
    lemma_not_at(f2, k2, 0);
    lemma_not_at(f3, k2, 0);
    assert(fields.skip(1) =~= seq![f1, f2, f3, f4, f5]);
    assert(fields.skip(1).skip(1) =~= seq![f2, f3, f4, f5]);
    assert(fields.skip(1).skip(1).skip(1) =~= seq![f3, f4, f5]);
    assert(fields.skip(1).skip(1).skip(1).skip(1) =~= seq![f4, f5]);
    reveal_with_fuel(value_in, 6);
    assert(value_of(line, "messages_sent"@) == Some(m));
    assert(value_of(line, "bytes_sent"@) == Some(b));
}

proof fn lemma_not_at(s: Seq<char>, part: Seq<char>, i: int)
    requires
        0 <= i < s.len(),
        i < part.len(),
        s[i] != part[i],
    ensures
        !text::stands_at(s, 0, part),
{
    if part.len() <= s.len() {
        assert(s.subrange(0, part.len() as int)[i] == s[i]);
    }
}

/// What is left without a prefix does not begin with it, and what was taken away
/// is the prefix, as often as it stood there.
pub proof fn law_prefixes_are_taken_away(s: Seq<char>, prefix: Seq<char>) -> (count: nat)
    requires
        prefix.len() > 0,
    ensures
        s == text::repeated(prefix, count) + without_prefixes(s, prefix),
        !prefix.is_prefix_of(without_prefixes(s, prefix)),
    decreases s.len(),
{
    assert(text::stands_at(s, 0, prefix) == prefix.is_prefix_of(s));
    if text::stands_at(s, 0, prefix) {
        let rest = s.skip(prefix.len() as int);
        let count = law_prefixes_are_taken_away(rest, prefix);
        text::law_copies_follow_each_other(prefix, 1, count);
        assert(s =~= prefix + rest);
        assert(s =~= text::repeated(prefix, 1 + count) + without_prefixes(s, prefix));
        1 + count
    } else {
        assert(s =~= text::repeated(prefix, 0) + s);
        0
    }
}

/// The value of a key stands behind it and an equals sign, in the first field that
/// begins so. A key that no field begins with has none.
pub proof fn law_first_field_of_a_key_counts(
    fields: Seq<Seq<char>>,
    key: Seq<char>,
    value: Seq<char>,
    i: int,
)
    ensures
        0 <= i < fields.len() && fields[i] == key + seq!['='] + value && (forall|j: int|
            0 <= j < i ==> !(key + seq!['=']).is_prefix_of(#[trigger] fields[j])) ==> value_in(
            fields,
            key,
        ) == Some(value),
        (forall|j: int|
            0 <= j < fields.len() ==> !(key + seq!['=']).is_prefix_of(#[trigger] fields[j]))
            ==> value_in(fields, key) is None,
    decreases fields.len(),
{
    reveal_strlit("=");
    let prefix = key + seq!['='];
    assert(key + "="@ =~= prefix);
    if fields.len() > 0 {
        let after = fields.skip(1);
        law_first_field_of_a_key_counts(after, key, value, i - 1);
        assert(forall|j: int| 0 <= j < after.len() ==> #[trigger] after[j] == fields[j + 1]);
        assert(text::stands_at(fields[0], 0, prefix) == prefix.is_prefix_of(fields[0]));
        if 0 <= i < fields.len() && fields[i] == prefix + value && (forall|j: int|
            0 <= j < i ==> !prefix.is_prefix_of(#[trigger] fields[j])) {
            if i == 0 {
                assert(prefix.is_prefix_of(fields[0]));
                assert(fields[0].skip(key.len() as int + 1) =~= value);
            } else {
                assert(!prefix.is_prefix_of(fields[0]));
                assert(forall|j: int|
                    0 <= j < i - 1 ==> !prefix.is_prefix_of(#[trigger] after[j]));
            }
        }
        if forall|j: int| 0 <= j < fields.len() ==> !prefix.is_prefix_of(#[trigger] fields[j]) {
            assert(!prefix.is_prefix_of(fields[0]));
            assert(forall|j: int|
                0 <= j < after.len() ==> !prefix.is_prefix_of(#[trigger] after[j]));
        }
    }
}

/// The number of a key is the number that its value is, where there is a value and
/// it is a number.
pub proof fn law_number_of_a_key_is_its_value(line: Seq<char>, key: Seq<char>, max: nat)
    ensures
        value_of(line, key) == value_in(text::fields(line, Cut::Spaces), key),
        value_of(line, key) is None ==> number_of(line, key, max) is None,
        value_of(line, key) matches Some(value) ==> number_of(line, key, max) == text::parsed(
            value,
            max,
        ),
{
}

/// A plain text is as long as the text that it was made of. It has the letters and
/// digits of ASCII at their places, and underscores everywhere else.
pub proof fn law_plain_text_keeps_letters_and_digits(s: Seq<char>, i: int)
    requires
        0 <= i < s.len(),
    ensures
        plain(s).len() == s.len(),
        'a' <= s[i] <= 'z' ==> plain(s)[i] == s[i],
        'A' <= s[i] <= 'Z' ==> plain(s)[i] == s[i],
        '0' <= s[i] <= '9' ==> plain(s)[i] == s[i],
        !('a' <= s[i] <= 'z') && !('A' <= s[i] <= 'Z') && !('0' <= s[i] <= '9') ==> plain(s)[i]
            == '_',
{
}

/// Waited for are a report of each process that it is ready, and one of each that
/// it has found the other.
pub proof fn law_which_marks_are_waited_for(mark: Seq<char>, role: Seq<char>)
    ensures
        all_marks().contains(mark) <==> mark == "ready-subscriber"@ || mark == "ready-publisher"@
            || mark == "matched-subscriber"@ || mark == "matched-publisher"@,
        ready_mark(role) == "ready-"@ + role,
        matched_mark(role) == "matched-"@ + role,
        is_role(role) <==> role == "subscriber"@ || role == "publisher"@,
{
    reveal_strlit("ready-");
    reveal_strlit("matched-");
    reveal_strlit("subscriber");
    reveal_strlit("publisher");
    reveal_strlit("ready-subscriber");
    reveal_strlit("ready-publisher");
    reveal_strlit("matched-subscriber");
    reveal_strlit("matched-publisher");
    assert("ready-"@ + "subscriber"@ =~= "ready-subscriber"@);
    assert("ready-"@ + "publisher"@ =~= "ready-publisher"@);
    assert("matched-"@ + "subscriber"@ =~= "matched-subscriber"@);
    assert("matched-"@ + "publisher"@ =~= "matched-publisher"@);
}

} // verus!
