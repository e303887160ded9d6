//! What the output of other programs says about the host.
use crate::text;
use crate::text::{Cut, NumberFault};
use vstd::prelude::*;

verus! {

/// What stands behind the prefix in the first of `lines` that begins with it.
pub open spec fn behind_prefix(lines: Seq<Seq<char>>, prefix: Seq<char>) -> Option<Seq<char>>
    decreases lines.len(),
{
    if lines.len() == 0 {
        None
    } else if text::stands_at(lines[0], 0, prefix) {
        Some(lines[0].skip(prefix.len() as int))
    } else {
        behind_prefix(lines.skip(1), prefix)
    }
}

/// The target that the compiler's version report names as its host.
pub fn rustc_host(report: &str) -> (r: Option<String>)
    ensures
        match behind_prefix(text::fields(report@, Cut::LineEnds), "host: "@) {
            Some(host) => r matches Some(found) && found@ == text::trimmed(host),
            None => r is None,
        },
{
    let lines = text::split_fields(report, Cut::LineEnds);
    let ghost all = text::views(lines@);
    let mut i: usize = 0;
    assert(all.skip(0) =~= all);
    while i < lines.len()
        invariant
            i <= lines.len(),
            all == text::views(lines@),
            all == text::fields(report@, Cut::LineEnds),
            behind_prefix(all, "host: "@) == behind_prefix(all.skip(i as int), "host: "@),
        decreases lines.len() - i,
    {
        assert(all.skip(i as int)[0] == lines@[i as int]@);
        match text::strip_prefix(lines[i], "host: ") {
            Some(host) => {
                return Some(text::trim(host).to_owned());
            },
            None => {},
        }
        assert(all.skip(i as int).skip(1) =~= all.skip(i + 1));
        i = i + 1;
    }
    None
}

/// The number that a line states as the total memory.
pub open spec fn memory_in(line: Seq<char>) -> Option<nat> {
    if text::stands_at(line, 0, "MemTotal:"@) {
        let words = text::fields(line.skip("MemTotal:"@.len() as int), Cut::Spaces);
        if words.len() > 0 {
            text::parsed(words[0], u64::MAX as nat)
        } else {
            None
        }
    } else {
        None
    }
}

/// The total memory that the first line states that states one.
pub open spec fn memory_total(lines: Seq<Seq<char>>) -> Option<nat>
    decreases lines.len(),
{
    if lines.len() == 0 {
        None
    } else if memory_in(lines[0]) is Some {
        memory_in(lines[0])
    } else {
        memory_total(lines.skip(1))
    }
}

fn line_memory(line: &str) -> (r: Option<u64>)
    ensures
        r is Some <==> memory_in(line@) is Some,
        r matches Some(n) ==> memory_in(line@) == Some(n as nat),
{
    match text::strip_prefix(line, "MemTotal:") {
        Some(rest) => {
            let words = text::split_fields(rest, Cut::Spaces);
            assert(text::views(words@).len() == words@.len());
            if words.len() > 0 {
                assert(text::views(words@)[0] == words@[0]@);
                text::parse_u64(words[0])
            } else {
                None
            }
        },
        None => None,
    }
}

/// The total memory of the host in kibibytes, from the kernel's report.
pub fn memory_kib(report: &str) -> (r: Option<u64>)
    ensures
        match memory_total(text::fields(report@, Cut::LineEnds)) {
            Some(n) => r == Some(n as u64) && n <= u64::MAX,
            None => r is None,
        },
{
    let lines = text::split_fields(report, Cut::LineEnds);
    let ghost all = text::views(lines@);
    let mut i: usize = 0;
    assert(all.skip(0) =~= all);
    while i < lines.len()
        invariant
            i <= lines.len(),
            all == text::views(lines@),
            all == text::fields(report@, Cut::LineEnds),
            memory_total(all) == memory_total(all.skip(i as int)),
        decreases lines.len() - i,
    {
        assert(all.skip(i as int)[0] == lines@[i as int]@);
        match line_memory(lines[i]) {
            Some(n) => {
                return Some(n);
            },
            None => {},
        }
        assert(all.skip(i as int).skip(1) =~= all.skip(i + 1));
        i = i + 1;
    }
    None
}

/// Kibibytes in bytes.
pub fn kib_to_bytes(kib: u64) -> (r: u64)
    requires
        kib * 1024 <= u64::MAX,
    ensures
        r == kib * 1024,
{
    kib * 1024
}

/// The first word of a checksum report.
pub fn first_word(report: &str) -> (r: Option<String>)
    ensures
        ({
            let words = text::fields(report@, Cut::Blanks);
            if words.len() > 0 {
                r matches Some(found) && found@ == words[0]
            } else {
                r is None
            }
        }),
{
    let words = text::split_fields(report, Cut::Blanks);
    assert(text::views(words@).len() == words@.len());
    if words.len() > 0 {
        assert(text::views(words@)[0] == words@[0]@);
        Some(words[0].to_owned())
    } else {
        None
    }
}

/// What was found out, or why it was not.
#[derive(Debug)]
pub enum Finding<T> {
    Known(T),
    Unavailable(String),
}

/// How another program ended, and what it wrote.
#[derive(Debug)]
pub struct CommandOutput<'a> {
    pub success: bool,
    /// None where a signal ended it.
    pub code: Option<i32>,
    pub stdout: &'a str,
    pub stderr: &'a str,
}

pub open spec fn signed(n: int) -> Seq<char> {
    if n < 0 {
        "-"@ + text::decimal((-n) as nat)
    } else {
        text::decimal(n as nat)
    }
}

/// The code with which a program ended, as a reason shows it.
pub open spec fn code_text(code: Option<i32>) -> Seq<char> {
    match code {
        Some(n) => "Some("@ + signed(n as int) + ")"@,
        None => "None"@,
    }
}

fn push_code(s: &mut String, code: Option<i32>)
    ensures
        final(s)@ == old(s)@ + code_text(code),
{
    match code {
        Some(n) => {
            s.append("Some(");
            if n < 0 {
                s.append("-");
                text::push_decimal(s, (-(n as i64)) as u128);
            } else {
                text::push_decimal(s, n as u128);
            }
            s.append(")");
            assert(s@ =~= old(s)@ + code_text(code));
        },
        None => {
            s.append("None");
        },
    }
}

/// What a program that succeeded wrote; of one that did not, with which code
/// it ended and what it wrote of its errors.
pub fn command_value(command: &str, output: &CommandOutput<'_>) -> (r: Finding<String>)
    ensures
        match r {
            Finding::Known(value) => output.success && value@ == text::trimmed(output.stdout@),
            Finding::Unavailable(reason) => !output.success && reason@ == command@
                + " exited with "@ + code_text(output.code) + ": "@ + text::trimmed(output.stderr@),
        },
{
    if output.success {
        return Finding::Known(text::trim(output.stdout).to_owned());
    }
    let mut reason = command.to_owned();
    reason.append(" exited with ");
    push_code(&mut reason, output.code);
    reason.append(": ");
    reason.append(text::trim(output.stderr));
    Finding::Unavailable(reason)
}

/// What a program that succeeded wrote.
pub fn command_string(output: &CommandOutput<'_>) -> (r: Option<String>)
    ensures
        text::text_of(r) == if output.success {
            Some(text::trimmed(output.stdout@))
        } else {
            None
        },
{
    if !output.success {
        return None;
    }
    Some(text::trim(output.stdout).to_owned())
}

/// Whether a working tree differs from what is committed, where its status is
/// known: it does where there is anything to say of it.
pub fn is_dirty(status: Option<String>) -> (r: Option<bool>)
    ensures
        r == match status {
            Some(report) => Some(report@.len() > 0),
            None => None,
        },
{
    proof {
        reveal_strlit("");
    }
    match status {
        Some(report) => {
            assert(report@.len() == 0 ==> report@ =~= ""@);
            Some(!text::same_text(report.as_str(), ""))
        },
        None => None,
    }
}

/// The target that the compiler was built for.
pub fn rustc_target_value(output: &CommandOutput<'_>) -> (r: Finding<String>)
    ensures
        ({
            let host = behind_prefix(text::fields(output.stdout@, Cut::LineEnds), "host: "@);
            match r {
                Finding::Known(value) => output.success && host is Some && value@ == text::trimmed(
                    host->0,
                ),
                Finding::Unavailable(reason) => !(output.success && host is Some) && reason@
                    == if output.success {
                    "rustc host target is unavailable"@
                } else {
                    text::trimmed(output.stderr@)
                },
            }
        }),
{
    if !output.success {
        return Finding::Unavailable(text::trim(output.stderr).to_owned());
    }
    match rustc_host(output.stdout) {
        Some(host) => Finding::Known(host),
        None => Finding::Unavailable("rustc host target is unavailable".to_owned()),
    }
}

/// The checksum that a checksum report begins with.
pub fn file_hash_value(output: &CommandOutput<'_>) -> (r: Finding<String>)
    ensures
        ({
            let words = text::fields(output.stdout@, Cut::Blanks);
            match r {
                Finding::Known(value) => output.success && words.len() > 0 && value@ == words[0],
                Finding::Unavailable(reason) => !(output.success && words.len() > 0) && reason@
                    == if output.success {
                    "sha256sum returned no digest"@
                } else {
                    text::trimmed(output.stderr@)
                },
            }
        }),
{
    if !output.success {
        return Finding::Unavailable(text::trim(output.stderr).to_owned());
    }
    match first_word(output.stdout) {
        Some(digest) => Finding::Known(digest),
        None => Finding::Unavailable("sha256sum returned no digest".to_owned()),
    }
}

/// The total memory of the host in bytes, from the kernel's report.
pub fn memory_value(report: &str) -> (r: Finding<u64>)
    requires
        memory_total(text::fields(report@, Cut::LineEnds)) matches Some(kib) ==> kib * 1024
            <= u64::MAX,
    ensures
        match r {
            Finding::Known(bytes) => memory_total(text::fields(report@, Cut::LineEnds)) matches Some(
                kib,
            ) && bytes == kib * 1024,
            Finding::Unavailable(reason) => memory_total(
                text::fields(report@, Cut::LineEnds),
            ) is None && reason@ == "MemTotal is unavailable"@,
        },
{
    match memory_kib(report) {
        Some(kib) => Finding::Known(kib_to_bytes(kib)),
        None => Finding::Unavailable("MemTotal is unavailable".to_owned()),
    }
}

/// A fault of a number, as a reason shows it.
pub open spec fn fault_text(fault: NumberFault) -> Seq<char> {
    match fault {
        NumberFault::Empty => "cannot parse integer from empty string"@,
        NumberFault::InvalidDigit => "invalid digit found in string"@,
        NumberFault::TooLarge => "number too large to fit in target type"@,
    }
}

/// The number that a report consists of, between white space.
pub fn number_value(report: &str) -> (r: Finding<u64>)
    ensures
        match r {
            Finding::Known(n) => text::parsed(text::trimmed(report@), u64::MAX as nat) == Some(
                n as nat,
            ),
            Finding::Unavailable(reason) => {
                &&& text::parsed(text::trimmed(report@), u64::MAX as nat) is None
                &&& text::number_fault(
                    text::trimmed(report@),
                    u64::MAX as nat,
                ) matches Some(fault) && reason@ == fault_text(fault)
            },
        },
{
    match text::parse_number(text::trim(report)) {
        Ok(n) => Finding::Known(n),
        Err(NumberFault::Empty) => Finding::Unavailable(
            "cannot parse integer from empty string".to_owned(),
        ),
        Err(NumberFault::InvalidDigit) => Finding::Unavailable(
            "invalid digit found in string".to_owned(),
        ),
        Err(NumberFault::TooLarge) => Finding::Unavailable(
            "number too large to fit in target type".to_owned(),
        ),
    }
}

/// The name of the machine: that of the runner, or else that of the host.
pub fn runner(runner_name: Option<String>, hostname: Option<String>) -> (r: Finding<String>)
    ensures
        match r {
            Finding::Known(name) => Some(name) == if runner_name is Some {
                runner_name
            } else {
                hostname
            },
            Finding::Unavailable(reason) => runner_name is None && hostname is None && reason@
                == "RUNNER_NAME and HOSTNAME are unavailable"@,
        },
{
    match runner_name {
        Some(name) => Finding::Known(name),
        None => match hostname {
            Some(name) => Finding::Known(name),
            None => Finding::Unavailable("RUNNER_NAME and HOSTNAME are unavailable".to_owned()),
        },
    }
}

/// What a report says of a package.
#[derive(Debug)]
pub struct Package {
    pub name: Option<String>,
    pub version: Option<String>,
}

/// Name and version of each package, as far as there are any.
pub open spec fn package_views(packages: Seq<Package>) -> Seq<
    (Option<Seq<char>>, Option<Seq<char>>),
> {
    packages.map_values(
        |package: Package| (text::text_of(package.name), text::text_of(package.version)),
    )
}

/// Where a package was noted last.
pub open spec fn noted_at(found: Seq<(Seq<char>, Seq<char>)>, name: Seq<char>) -> Option<int>
    decreases found.len(),
{
    if found.len() == 0 {
        None
    } else if found.last().0 == name {
        Some(found.len() - 1)
    } else {
        noted_at(found.drop_last(), name)
    }
}

/// What is noted after one more version: a package that was noted before keeps
/// its place and gets the new one.
pub open spec fn noted(
    found: Seq<(Seq<char>, Seq<char>)>,
    name: Seq<char>,
    version: Seq<char>,
) -> Seq<(Seq<char>, Seq<char>)> {
    match noted_at(found, name) {
        Some(i) => found.update(i, (name, version)),
        None => found.push((name, version)),
    }
}

/// Name and version of each package that has both. Of several under one name
/// the last counts.
pub open spec fn versions(packages: Seq<(Option<Seq<char>>, Option<Seq<char>>)>) -> Seq<
    (Seq<char>, Seq<char>),
>
    decreases packages.len(),
{
    if packages.len() == 0 {
        Seq::empty()
    } else {
        let before = versions(packages.drop_last());
        match packages.last() {
            (Some(name), Some(version)) => noted(before, name, version),
            _ => before,
        }
    }
}

pub open spec fn version_views(found: Seq<(String, String)>) -> Seq<(Seq<char>, Seq<char>)> {
    found.map_values(|pair: (String, String)| (pair.0@, pair.1@))
}

/// Notes the version of a package.
fn note_version(found: &mut Vec<(String, String)>, name: &str, version: &str)
    ensures
        version_views(final(found)@) == noted(version_views(old(found)@), name@, version@),
{
    let ghost before = version_views(found@);
    let mut i: usize = found.len();
    assert(before.take(i as int) =~= before);
    while i > 0
        invariant
            i <= found.len(),
            found@ == old(found)@,
            before == version_views(found@),
            noted_at(before, name@) == noted_at(before.take(i as int), name@),
        decreases i,
    {
        i = i - 1;
        proof {
            assert(before.take(i + 1).drop_last() =~= before.take(i as int));
            assert(before.take(i + 1).last() == (found@[i as int].0@, found@[i as int].1@));
        }
        if text::same_text(found[i].0.as_str(), name) {
            found.set(i, (name.to_owned(), version.to_owned()));
            assert(version_views(found@) =~= before.update(i as int, (name@, version@)));
            return ;
        }
    }
    found.push((name.to_owned(), version.to_owned()));
    assert(version_views(found@) =~= before.push((name@, version@)));
}

/// Name and version of each package that has both, where a report lists
/// packages at all.
pub fn cargo_package_versions(packages: Option<Vec<Package>>) -> (r: Finding<Vec<(String, String)>>)
    ensures
        match r {
            Finding::Known(found) => packages matches Some(listed) && version_views(found@)
                == versions(package_views(listed@)),
            Finding::Unavailable(reason) => packages is None && reason@
                == "cargo metadata has no packages"@,
        },
{
    let listed = match packages {
        Some(listed) => listed,
        None => {
            return Finding::Unavailable("cargo metadata has no packages".to_owned());
        },
    };
    let mut found: Vec<(String, String)> = Vec::new();
    let mut i: usize = 0;
    let ghost all = package_views(listed@);
    assert(version_views(found@) =~= versions(all.take(0)));
    while i < listed.len()
        invariant
            i <= listed.len(),
            all == package_views(listed@),
            version_views(found@) == versions(all.take(i as int)),
        decreases listed.len() - i,
    {
        proof {
            let part = all.take(i + 1);
            assert(part.last() == (
                text::text_of(listed@[i as int].name),
                text::text_of(listed@[i as int].version),
            ));
            assert(part.drop_last() =~= all.take(i as int));
        }
        match (&listed[i].name, &listed[i].version) {
            (Some(name), Some(version)) => {
                note_version(&mut found, name.as_str(), version.as_str());
            },
            _ => {},
        }
        i = i + 1;
    }
    assert(all.take(i as int) =~= all);
    Finding::Known(found)
}

/// What `serde_json::from_slice` finds in a report: of each item of the array
/// under the key `list` the texts under two keys, as far as there are any. None
/// where there is no such array; the text of the error where the report is no
/// JSON.
pub uninterp spec fn json_list(
    report: Seq<u8>,
    list: Seq<char>,
    first: Seq<char>,
    second: Seq<char>,
) -> Result<Option<Seq<(Option<Seq<char>>, Option<Seq<char>>)>>, Seq<char>>;

/// Calls `serde_json::from_slice` for a `serde_json::Value`, and on that value
/// `Value::get`, `Value::as_array` and `Value::as_str`, to take the texts under
/// two keys out of each item of the array under the key `list`. An item stands
/// for a package whether or not it has them. What comes out follows from the
/// bytes and the keys alone.
#[verifier::external_body]
fn parsed_packages(report: &[u8], list: &str, first: &str, second: &str) -> (r: Result<
    Option<Vec<Package>>,
    String,
>)
    ensures
        match (r, json_list(report@, list@, first@, second@)) {
            (Ok(Some(packages)), Ok(Some(found))) => package_views(packages@) == found,
            (Ok(None), Ok(None)) => true,
            (Err(reason), Err(text)) => reason@ == text,
            _ => false,
        },
{
    let value = serde_json::from_slice::<serde_json::Value>(report).map_err(|e| e.to_string())?;
    let text = |item: &serde_json::Value, key: &str| Some(item.get(key)?.as_str()?.to_owned());
    let package = |item| Package { name: text(item, first), version: text(item, second) };
    let items = value.get(list).and_then(|found| found.as_array());
    Ok(items.map(|items| items.iter().map(package).collect()))
}

/// Name and version of each package that has both, from the report of a program
/// that lists packages. Where there is none, why: what the program wrote of its
/// errors, what makes the report unreadable, or that it lists no packages.
pub fn package_versions(success: bool, report: &[u8], stderr: &str) -> (r: Finding<
    Vec<(String, String)>,
>)
    ensures
        if !success {
            r matches Finding::Unavailable(reason) && reason@ == text::trimmed(stderr@)
        } else {
            match json_list(report@, "packages"@, "name"@, "version"@) {
                Ok(Some(found)) => r matches Finding::Known(known) && version_views(known@)
                    == versions(found),
                Ok(None) => r matches Finding::Unavailable(reason) && reason@
                    == "cargo metadata has no packages"@,
                Err(text) => r matches Finding::Unavailable(reason) && reason@ == text,
            }
        },
{
    if !success {
        return Finding::Unavailable(text::trim(stderr).to_owned());
    }
    match parsed_packages(report, "packages", "name", "version") {
        Ok(packages) => cargo_package_versions(packages),
        Err(reason) => Finding::Unavailable(reason),
    }
}

/// What is found behind a prefix stands in the first line that begins with it.
/// Nothing is found where no line does.
pub proof fn law_first_line_with_a_prefix_counts(
    lines: Seq<Seq<char>>,
    prefix: Seq<char>,
    rest: Seq<char>,
    i: int,
)
    ensures
        0 <= i < lines.len() && lines[i] == prefix + rest && (forall|j: int|
            0 <= j < i ==> !prefix.is_prefix_of(#[trigger] lines[j])) ==> behind_prefix(
            lines,
            prefix,
        ) == Some(rest),
        (forall|j: int| 0 <= j < lines.len() ==> !prefix.is_prefix_of(#[trigger] lines[j]))
            ==> behind_prefix(lines, prefix) is None,
    decreases lines.len(),
{
    if lines.len() > 0 {
        let after = lines.skip(1);
        law_first_line_with_a_prefix_counts(after, prefix, rest, i - 1);
        assert(forall|j: int| 0 <= j < after.len() ==> #[trigger] after[j] == lines[j + 1]);
        assert(text::stands_at(lines[0], 0, prefix) == prefix.is_prefix_of(lines[0]));
        if 0 <= i < lines.len() && lines[i] == prefix + rest && (forall|j: int|
            0 <= j < i ==> !prefix.is_prefix_of(#[trigger] lines[j])) {
            if i == 0 {
                assert(prefix.is_prefix_of(lines[0]));
                assert(lines[0].skip(prefix.len() as int) =~= rest);
            } else {
                assert(!prefix.is_prefix_of(lines[0]));
                assert(forall|j: int|
                    0 <= j < i - 1 ==> !prefix.is_prefix_of(#[trigger] after[j]));
            }
        }
        if forall|j: int| 0 <= j < lines.len() ==> !prefix.is_prefix_of(#[trigger] lines[j]) {
            assert(!prefix.is_prefix_of(lines[0]));
            assert(forall|j: int|
                0 <= j < after.len() ==> !prefix.is_prefix_of(#[trigger] after[j]));
        }
    }
}

/// A line states the memory where it begins with the kernel's word for it and the
/// first word behind that is a number.
pub proof fn law_line_states_the_memory(line: Seq<char>, rest: Seq<char>)
    ensures
        line == "MemTotal:"@ + rest && text::fields(rest, Cut::Spaces).len() > 0 ==> memory_in(line)
            == text::parsed(text::fields(rest, Cut::Spaces)[0], u64::MAX as nat),
        line == "MemTotal:"@ + rest && text::fields(rest, Cut::Spaces).len() == 0 ==> memory_in(
            line,
        ) is None,
        !("MemTotal:"@).is_prefix_of(line) ==> memory_in(line) is None,
{
    let word = "MemTotal:"@;
    assert(text::stands_at(line, 0, word) == word.is_prefix_of(line));
    if line == word + rest {
        assert(word.is_prefix_of(line));
        assert(line.skip(word.len() as int) =~= rest);
    }
}

/// The first line that states the memory counts.
pub proof fn law_first_statement_of_memory_counts(lines: Seq<Seq<char>>, i: int)
    ensures
        0 <= i < lines.len() && memory_in(lines[i]) is Some && (forall|j: int|
            0 <= j < i ==> memory_in(#[trigger] lines[j]) is None) ==> memory_total(lines)
            == memory_in(lines[i]),
        (forall|j: int| 0 <= j < lines.len() ==> memory_in(#[trigger] lines[j]) is None)
            ==> memory_total(lines) is None,
    decreases lines.len(),
{
    if lines.len() > 0 {
        let after = lines.skip(1);
        law_first_statement_of_memory_counts(after, i - 1);
        assert(forall|j: int| 0 <= j < after.len() ==> #[trigger] after[j] == lines[j + 1]);
        if 0 < i < lines.len() && (forall|j: int|
            0 <= j < i ==> memory_in(#[trigger] lines[j]) is None) {
            assert(memory_in(lines[0]) is None);
            assert(forall|j: int| 0 <= j < i - 1 ==> memory_in(#[trigger] after[j]) is None);
        }
        if forall|j: int| 0 <= j < lines.len() ==> memory_in(#[trigger] lines[j]) is None {
            assert(memory_in(lines[0]) is None);
            assert(forall|j: int| 0 <= j < after.len() ==> memory_in(#[trigger] after[j]) is None);
        }
    }
}

/// How a program's code is shown: with its sign where it is below zero.
pub proof fn law_codes_are_shown(n: i32)
    ensures
        n >= 0 ==> code_text(Some(n)) == "Some("@ + text::decimal(n as nat) + ")"@,
        n < 0 ==> code_text(Some(n)) == "Some(-"@ + text::decimal((-n) as nat) + ")"@,
        code_text(None) == "None"@,
{
    reveal_strlit("Some(");
    reveal_strlit("Some(-");
    reveal_strlit("-");
    if n < 0 {
        assert("Some("@ + "-"@ =~= "Some(-"@);
        assert(code_text(Some(n)) =~= "Some(-"@ + text::decimal((-n) as nat) + ")"@);
    }
}

/// How a fault of a number is shown.
pub proof fn law_faults_are_shown(fault: NumberFault)
    ensures
        fault is Empty ==> fault_text(fault) == "cannot parse integer from empty string"@,
        fault is InvalidDigit ==> fault_text(fault) == "invalid digit found in string"@,
        fault is TooLarge ==> fault_text(fault) == "number too large to fit in target type"@,
{
}

proof fn lemma_noted_at(found: Seq<(Seq<char>, Seq<char>)>, name: Seq<char>)
    ensures
        match noted_at(found, name) {
            Some(i) => 0 <= i < found.len() && found[i].0 == name,
            None => forall|i: int| 0 <= i < found.len() ==> #[trigger] found[i].0 != name,
        },
    decreases found.len(),
{
    if found.len() > 0 {
        let front = found.drop_last();
        lemma_noted_at(front, name);
        assert(forall|i: int| 0 <= i < front.len() ==> #[trigger] front[i] == found[i]);
        assert(found.last() == found[found.len() - 1]);
        if noted_at(found, name) is None {
            assert forall|i: int| 0 <= i < found.len() implies #[trigger] found[i].0 != name by {
                if i < front.len() {
                    assert(front[i].0 != name);
                }
            }
        }
    }
}

/// The names of what was noted.
pub open spec fn names_of(found: Seq<(Seq<char>, Seq<char>)>) -> Seq<Seq<char>> {
    found.map_values(|pair: (Seq<char>, Seq<char>)| pair.0)
}

/// Each package is noted once, at the place at which it was first met. One more
/// package changes nothing where it lacks its name or its version, and otherwise
/// only what is noted under its name.
pub proof fn law_packages_are_noted_once(
    packages: Seq<(Option<Seq<char>>, Option<Seq<char>>)>,
    more: (Option<Seq<char>>, Option<Seq<char>>),
)
    ensures
        names_of(versions(packages)).no_duplicates(),
        names_of(versions(packages)).is_prefix_of(names_of(versions(packages.push(more)))),
        more.0 is None || more.1 is None ==> versions(packages.push(more)) == versions(packages),
        more.0 is Some && more.1 is Some ==> versions(packages.push(more)).contains(
            (more.0->0, more.1->0),
        ),
        more.0 is Some && more.1 is Some ==> versions(packages.push(more)).len() == versions(
            packages,
        ).len() + if names_of(versions(packages)).contains(more.0->0) {
            0int
        } else {
            1
        },
        forall|i: int|
            0 <= i < versions(packages).len() && more.0 != Some(
                (#[trigger] versions(packages)[i]).0,
            ) ==> versions(packages.push(more))[i] == versions(packages)[i],
        versions(Seq::empty()).len() == 0,
    decreases packages.len(),
{
    let before = versions(packages);
    if packages.len() > 0 {
        law_packages_are_noted_once(packages.drop_last(), packages.last());
        assert(packages.drop_last().push(packages.last()) =~= packages);
        lemma_noted_names(versions(packages.drop_last()), packages.last());
    }
    assert(packages.push(more).drop_last() =~= packages);
    assert(packages.push(more).last() == more);
    if more.0 is Some && more.1 is Some {
        let name = more.0->0;
        let version = more.1->0;
        lemma_noted_at(before, name);
        let after = noted(before, name, version);
        assert(versions(packages.push(more)) == after);
        match noted_at(before, name) {
            Some(i) => {
                assert(after[i] == (name, version));
                assert(names_of(before)[i] == name);
            },
            None => {
                assert(after[before.len() as int] == (name, version));
                assert(forall|i: int|
                    0 <= i < before.len() ==> names_of(before)[i] == #[trigger] before[i].0);
                assert(!names_of(before).contains(name));
            },
        }
    }
}

proof fn lemma_noted_names(
    found: Seq<(Seq<char>, Seq<char>)>,
    more: (Option<Seq<char>>, Option<Seq<char>>),
)
    requires
        names_of(found).no_duplicates(),
    ensures
        more.0 is Some && more.1 is Some ==> names_of(
            noted(found, more.0->0, more.1->0),
        ).no_duplicates(),
{
    if more.0 is Some && more.1 is Some {
        let name = more.0->0;
        lemma_noted_at(found, name);
        let after = names_of(noted(found, name, more.1->0));
        match noted_at(found, name) {
            Some(i) => {
                assert(names_of(found)[i] == name);
                assert(after =~= names_of(found));
            },
            None => {
                assert(after =~= names_of(found).push(name));
                assert(forall|i: int|
                    0 <= i < found.len() ==> #[trigger] names_of(found)[i] == found[i].0);
            },
        }
    }
}

} // verus!
