//! The command lines of the benchmark's programs.
use super::error::BenchError;
use crate::text;
use vstd::prelude::*;

verus! {

/// The texts of a command line.
pub open spec fn texts(arguments: Seq<String>) -> Seq<Seq<char>> {
    arguments.map_values(|argument: String| argument@)
}

/// What is left behind the first option and its value.
pub open spec fn behind_first(arguments: Seq<Seq<char>>) -> Seq<Seq<char>> {
    if arguments.len() >= 2 {
        arguments.skip(2)
    } else {
        Seq::empty()
    }
}

/// The value of the option `name` where the options stand first, third, fifth
/// and so on, each before its value: the last one counts, and an option at the
/// end of the line has no value.
pub open spec fn option_value(
    arguments: Seq<Seq<char>>,
    name: Seq<char>,
    before: Option<Seq<char>>,
) -> Option<Seq<char>>
    decreases arguments.len(),
{
    if arguments.len() == 0 {
        before
    } else {
        let value = if arguments.len() >= 2 {
            Some(arguments[1])
        } else {
            None
        };
        option_value(
            behind_first(arguments),
            name,
            if arguments[0] == name {
                value
            } else {
                before
            },
        )
    }
}

/// The first option that is not one of `names`.
pub open spec fn unknown_option(arguments: Seq<Seq<char>>, names: Seq<Seq<char>>) -> Option<
    Seq<char>,
>
    decreases arguments.len(),
{
    if arguments.len() == 0 {
        None
    } else if !names.contains(arguments[0]) {
        Some(arguments[0])
    } else {
        unknown_option(behind_first(arguments), names)
    }
}

/// The value of one option on a command line.
pub open spec fn given(arguments: Seq<Seq<char>>, name: Seq<char>) -> Option<Seq<char>> {
    option_value(arguments, name, None)
}

fn argument_at(arguments: &Vec<String>, i: usize) -> (r: Option<String>)
    ensures
        text::text_of(r) == if i < arguments@.len() {
            Some(arguments@[i as int]@)
        } else {
            None
        },
{
    if i < arguments.len() {
        Some(arguments[i].clone())
    } else {
        None
    }
}

/// The command line of the program that runs a case.
#[derive(Debug)]
pub struct RunnerArguments {
    pub case_id: String,
    pub output: Option<String>,
    pub metadata: Option<String>,
    pub run_id: Option<String>,
}

pub open spec fn runner_options() -> Seq<Seq<char>> {
    seq!["--case"@, "--output"@, "--metadata"@, "--run-id"@]
}

proof fn lemma_behind(all: Seq<Seq<char>>, i: int)
    requires
        0 <= i < all.len(),
    ensures
        behind_first(all.skip(i)) == all.skip(if i + 2 <= all.len() { i + 2 } else { all.len() as int }),
        all.skip(i)[0] == all[i],
        i + 1 < all.len() ==> all.skip(i)[1] == all[i + 1],
        all.skip(i).len() == all.len() - i,
{
    if i + 2 <= all.len() {
        assert(all.skip(i).skip(2) =~= all.skip(i + 2));
    } else {
        assert(all.skip(all.len() as int) =~= Seq::empty());
    }
}

impl RunnerArguments {
    /// Reads a command line, without the program's name.
    pub fn parse(arguments: &Vec<String>) -> (r: Result<RunnerArguments, BenchError>)
        ensures
            match unknown_option(texts(arguments@), runner_options()) {
                Some(option) => r matches Err(BenchError::UnknownArgument(value)) && value@
                    == option,
                None => match given(texts(arguments@), "--case"@) {
                    None => r matches Err(BenchError::MissingArgument(name)) && name@ == "--case"@,
                    Some(case_id) => r matches Ok(parsed) && {
                        &&& parsed.case_id@ == case_id
                        &&& text::text_of(parsed.output) == given(
                            texts(arguments@),
                            "--output"@,
                        )
                        &&& text::text_of(parsed.metadata) == given(
                            texts(arguments@),
                            "--metadata"@,
                        )
                        &&& text::text_of(parsed.run_id) == given(
                            texts(arguments@),
                            "--run-id"@,
                        )
                    },
                },
            },
    {
        let ghost all = texts(arguments@);
        let mut case_id: Option<String> = None;
        let mut output: Option<String> = None;
        let mut metadata: Option<String> = None;
        let mut run_id: Option<String> = None;
        let mut i: usize = 0;
        assert(all.skip(0) =~= all);
        proof {
            reveal_strlit("--case");
            reveal_strlit("--output");
            reveal_strlit("--metadata");
            reveal_strlit("--run-id");
            assert("--case"@.len() == 6);
            assert("--output"@.len() == 8);
            assert("--metadata"@.len() == 10);
            assert("--run-id"@.len() == 8);
            assert("--output"@[2] == 'o' && "--run-id"@[2] == 'r');
        }
        while i < arguments.len()
            invariant
                i <= arguments.len(),
                all == texts(arguments@),
                "--case"@.len() == 6,
                "--output"@.len() == 8,
                "--metadata"@.len() == 10,
                "--run-id"@.len() == 8,
                "--output"@[2] == 'o' && "--run-id"@[2] == 'r',
                unknown_option(all, runner_options()) == unknown_option(
                    all.skip(i as int),
                    runner_options(),
                ),
                given(all, "--case"@) == option_value(
                    all.skip(i as int),
                    "--case"@,
                    text::text_of(case_id),
                ),
                given(all, "--output"@) == option_value(
                    all.skip(i as int),
                    "--output"@,
                    text::text_of(output),
                ),
                given(all, "--metadata"@) == option_value(
                    all.skip(i as int),
                    "--metadata"@,
                    text::text_of(metadata),
                ),
                given(all, "--run-id"@) == option_value(
                    all.skip(i as int),
                    "--run-id"@,
                    text::text_of(run_id),
                ),
            decreases arguments.len() - i,
        {
            let option = arguments[i].as_str();
            let has_value = i < arguments.len() - 1;
            let value = if has_value {
                argument_at(arguments, i + 1)
            } else {
                None
            };
            proof {
                lemma_behind(all, i as int);
                assert(all[i as int] == option@);
                let options = runner_options();
                assert(options[0] == "--case"@ && options[1] == "--output"@ && options[2]
                    == "--metadata"@ && options[3] == "--run-id"@);
            }
            if text::same_text(option, "--case") {
                case_id = value;
            } else if text::same_text(option, "--output") {
                output = value;
            } else if text::same_text(option, "--metadata") {
                metadata = value;
            } else if text::same_text(option, "--run-id") {
                run_id = value;
            } else {
                return Err(BenchError::UnknownArgument(option.to_owned()));
            }
            i = if has_value {
                i + 2
            } else {
                arguments.len()
            };
        }
        assert(all.skip(i as int) =~= Seq::empty());
        match case_id {
            Some(case_id) => Ok(RunnerArguments { case_id, output, metadata, run_id }),
            None => Err(BenchError::MissingArgument("--case")),
        }
    }
}

/// The command line of the programs that send and receive.
#[derive(Debug)]
pub struct ChildArguments {
    pub case_id: String,
    pub topic: String,
    pub run_id: String,
}

pub open spec fn child_options() -> Seq<Seq<char>> {
    seq!["--case"@, "--topic"@, "--run-id"@]
}

impl ChildArguments {
    /// Reads a command line, without the program's name.
    pub fn parse(arguments: &Vec<String>) -> (r: Result<ChildArguments, BenchError>)
        ensures
            ({
                let all = texts(arguments@);
                match unknown_option(all, child_options()) {
                    Some(option) => r matches Err(BenchError::UnknownArgument(value)) && value@
                        == option,
                    None => if given(all, "--case"@) is None {
                        r matches Err(BenchError::MissingArgument(name)) && name@ == "--case"@
                    } else if given(all, "--topic"@) is None {
                        r matches Err(BenchError::MissingArgument(name)) && name@ == "--topic"@
                    } else if given(all, "--run-id"@) is None {
                        r matches Err(BenchError::MissingArgument(name)) && name@ == "--run-id"@
                    } else {
                        r matches Ok(parsed) && {
                            &&& Some(parsed.case_id@) == given(all, "--case"@)
                            &&& Some(parsed.topic@) == given(all, "--topic"@)
                            &&& Some(parsed.run_id@) == given(all, "--run-id"@)
                        }
                    },
                }
            }),
    {
        let ghost all = texts(arguments@);
        let mut case_id: Option<String> = None;
        let mut topic: Option<String> = None;
        let mut run_id: Option<String> = None;
        let mut i: usize = 0;
        assert(all.skip(0) =~= all);
        proof {
            reveal_strlit("--case");
            reveal_strlit("--topic");
            reveal_strlit("--run-id");
            assert("--case"@.len() == 6);
            assert("--topic"@.len() == 7);
            assert("--run-id"@.len() == 8);
        }
        while i < arguments.len()
            invariant
                i <= arguments.len(),
                all == texts(arguments@),
                "--case"@.len() == 6,
                "--topic"@.len() == 7,
                "--run-id"@.len() == 8,
                unknown_option(all, child_options()) == unknown_option(
                    all.skip(i as int),
                    child_options(),
                ),
                given(all, "--case"@) == option_value(
                    all.skip(i as int),
                    "--case"@,
                    text::text_of(case_id),
                ),
                given(all, "--topic"@) == option_value(
                    all.skip(i as int),
                    "--topic"@,
                    text::text_of(topic),
                ),
                given(all, "--run-id"@) == option_value(
                    all.skip(i as int),
                    "--run-id"@,
                    text::text_of(run_id),
                ),
            decreases arguments.len() - i,
        {
            let option = arguments[i].as_str();
            let has_value = i < arguments.len() - 1;
            let value = if has_value {
                argument_at(arguments, i + 1)
            } else {
                None
            };
            proof {
                lemma_behind(all, i as int);
                assert(all[i as int] == option@);
                let options = child_options();
                assert(options[0] == "--case"@ && options[1] == "--topic"@ && options[2]
                    == "--run-id"@);
            }
            if text::same_text(option, "--case") {
                case_id = value;
            } else if text::same_text(option, "--topic") {
                topic = value;
            } else if text::same_text(option, "--run-id") {
                run_id = value;
            } else {
                return Err(BenchError::UnknownArgument(option.to_owned()));
            }
            i = if has_value {
                i + 2
            } else {
                arguments.len()
            };
        }
        assert(all.skip(i as int) =~= Seq::empty());
        let case_id = match case_id {
            Some(case_id) => case_id,
            None => {
                return Err(BenchError::MissingArgument("--case"));
            },
        };
        let topic = match topic {
            Some(topic) => topic,
            None => {
                return Err(BenchError::MissingArgument("--topic"));
            },
        };
        match run_id {
            Some(run_id) => Ok(ChildArguments { case_id, topic, run_id }),
            None => Err(BenchError::MissingArgument("--run-id")),
        }
    }
}

/// Options stand at the even places of a command line, each before its value. The
/// last one of a name counts: its value is what stands behind it, and there is
/// none where the line ends with it. An option that is not there has no value.
pub proof fn law_last_option_of_a_name_counts(all: Seq<Seq<char>>, name: Seq<char>, i: int)
    ensures
        0 <= i < all.len() && i % 2 == 0 && all[i] == name && (forall|j: int|
            i < j < all.len() && j % 2 == 0 ==> #[trigger] all[j] != name) ==> given(all, name)
            == if i + 1 < all.len() {
            Some(all[i + 1])
        } else {
            None
        },
        (forall|j: int| 0 <= j < all.len() && j % 2 == 0 ==> #[trigger] all[j] != name) ==> given(
            all,
            name,
        ) is None,
{
    if 0 <= i < all.len() && i % 2 == 0 && all[i] == name && (forall|j: int|
        i < j < all.len() && j % 2 == 0 ==> #[trigger] all[j] != name) {
        lemma_last_option(all, name, None, i);
    }
    if forall|j: int| 0 <= j < all.len() && j % 2 == 0 ==> #[trigger] all[j] != name {
        lemma_no_option(all, name, None);
    }
}

proof fn lemma_later_options(all: Seq<Seq<char>>, name: Seq<char>, from: int)
    requires
        all.len() > 0,
        from >= 0,
        from % 2 == 0,
        forall|j: int| from <= j < all.len() && j % 2 == 0 ==> #[trigger] all[j] != name,
    ensures
        forall|j: int|
            from - 2 <= j < behind_first(all).len() && j >= 0 && j % 2 == 0
                ==> #[trigger] behind_first(all)[j] != name,
{
    let rest = behind_first(all);
    assert forall|j: int|
        from - 2 <= j < rest.len() && j >= 0 && j % 2 == 0 implies #[trigger] rest[j] != name by {
        assert(rest[j] == all[j + 2]);
        assert((j + 2) % 2 == 0);
    }
}

proof fn lemma_no_option(all: Seq<Seq<char>>, name: Seq<char>, before: Option<Seq<char>>)
    requires
        forall|j: int| 0 <= j < all.len() && j % 2 == 0 ==> #[trigger] all[j] != name,
    ensures
        option_value(all, name, before) == before,
    decreases all.len(),
{
    if all.len() > 0 {
        assert(all[0] != name);
        lemma_later_options(all, name, 0);
        lemma_no_option(behind_first(all), name, before);
    }
}

proof fn lemma_last_option(
    all: Seq<Seq<char>>,
    name: Seq<char>,
    before: Option<Seq<char>>,
    i: int,
)
    requires
        0 <= i < all.len(),
        i % 2 == 0,
        all[i] == name,
        forall|j: int| i < j < all.len() && j % 2 == 0 ==> #[trigger] all[j] != name,
    ensures
        option_value(all, name, before) == if i + 1 < all.len() {
            Some(all[i + 1])
        } else {
            None
        },
    decreases all.len(),
{
    let rest = behind_first(all);
    assert(forall|j: int|
        i + 2 <= j < all.len() && j % 2 == 0 ==> #[trigger] all[j] != name);
    assert((i + 2) % 2 == 0);
    lemma_later_options(all, name, i + 2);
    if i == 0 {
        lemma_no_option(
            rest,
            name,
            if all.len() >= 2 {
                Some(all[1])
            } else {
                None
            },
        );
    } else {
        assert(i >= 2);
        assert(rest[i - 2] == all[i]);
        assert((i - 2) % 2 == 0);
        if i + 1 < all.len() {
            assert(rest[i - 1] == all[i + 1]);
        }
        lemma_last_option(
            rest,
            name,
            if all[0] == name {
                Some(all[1])
            } else {
                before
            },
            i - 2,
        );
    }
}

/// The first word at an even place that is no option of the program is the one
/// that is refused; where all are options, none is.
pub proof fn law_first_unknown_option_is_refused(
    all: Seq<Seq<char>>,
    names: Seq<Seq<char>>,
    i: int,
)
    ensures
        0 <= i < all.len() && i % 2 == 0 && !names.contains(all[i]) && (forall|j: int|
            0 <= j < i && j % 2 == 0 ==> names.contains(#[trigger] all[j])) ==> unknown_option(
            all,
            names,
        ) == Some(all[i]),
        (forall|j: int| 0 <= j < all.len() && j % 2 == 0 ==> names.contains(#[trigger] all[j]))
            ==> unknown_option(all, names) is None,
    decreases all.len(),
{
    if all.len() > 0 {
        let rest = behind_first(all);
        law_first_unknown_option_is_refused(rest, names, i - 2);
        let fails = 0 <= i < all.len() && i % 2 == 0 && !names.contains(all[i]) && (forall|j: int|
            0 <= j < i && j % 2 == 0 ==> names.contains(#[trigger] all[j]));
        if fails && i > 0 {
            assert(names.contains(all[0]));
            assert(rest[i - 2] == all[i]);
            assert((i - 2) % 2 == 0);
            assert forall|j: int| 0 <= j < i - 2 && j % 2 == 0 implies names.contains(
                #[trigger] rest[j],
            ) by {
                assert(rest[j] == all[j + 2]);
                assert((j + 2) % 2 == 0);
            }
        }
        if forall|j: int| 0 <= j < all.len() && j % 2 == 0 ==> names.contains(#[trigger] all[j]) {
            assert(names.contains(all[0]));
            assert forall|j: int| 0 <= j < rest.len() && j % 2 == 0 implies names.contains(
                #[trigger] rest[j],
            ) by {
                assert(rest[j] == all[j + 2]);
                assert((j + 2) % 2 == 0);
            }
        }
    }
}

/// The options that the programs know.
pub proof fn law_known_options(name: Seq<char>)
    ensures
        runner_options().contains(name) <==> name == "--case"@ || name == "--output"@ || name
            == "--metadata"@ || name == "--run-id"@,
        child_options().contains(name) <==> name == "--case"@ || name == "--topic"@ || name
            == "--run-id"@,
{
    let runner = runner_options();
    assert(runner[0] == "--case"@ && runner[1] == "--output"@ && runner[2] == "--metadata"@
        && runner[3] == "--run-id"@);
    let child = child_options();
    assert(child[0] == "--case"@ && child[1] == "--topic"@ && child[2] == "--run-id"@);
}

} // verus!
