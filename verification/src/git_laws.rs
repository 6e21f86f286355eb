//! What holds of git: revisions, settings, the commands that are run and the choice of a backend.

use vstd::prelude::*;
use crate::backend::{VcsBackend, VcsInfo};
use crate::error::{ErrorView, TuicrError};
use crate::git;
use crate::git::{
    CommandOutputError,
    CommandOutputErrorKind,
    GitBackendPreference,
    GitRepoMode,
    RevisionView,
};
use crate::git_backend;
use crate::git_backend::GitBackend;
use crate::text;
use crate::text_laws;
use crate::text_laws::{is_blank, is_lines_of, is_word_in};
use crate::whitespace::DiffWhitespaceMode;
use crate::words;

verus! {

/// Two revisions with two dots between them are a range with its base first; an end that is left
/// out is `HEAD`.
pub proof fn law_open_ends_are_head(base: Seq<char>, head: Seq<char>)
    requires
        !git::holds(base, ".."@),
        !git::holds(head, "..."@),
        base.len() > 0 ==> base.last() != '.',
        head.len() > 0 ==> head[0] != '.',
    ensures
        git::revision_expression(base + ".."@ + head) == Ok::<RevisionView, ErrorView>(
            RevisionView::Range {
                base: if base.len() > 0 {
                    base
                } else {
                    "HEAD"@
                },
                head: if head.len() > 0 {
                    head
                } else {
                    "HEAD"@
                },
            },
        ),
{
    git::law_two_dot_range(base, head);
}

/// One text holds another exactly where it is that text with something before and after it.
pub proof fn law_a_text_holds_its_parts(s: Seq<char>, pat: Seq<char>)
    ensures
        git::holds(s, pat) <==> exists|before: Seq<char>, after: Seq<char>|
            s == #[trigger] (before + pat + after),
{
    if git::holds(s, pat) {
        let i = choose|i: int| #[trigger] text::occurs_at(s, pat, i);
        assert(s =~= s.take(i) + pat + s.skip(i + pat.len()));
    }
    if exists|before: Seq<char>, after: Seq<char>| s == #[trigger] (before + pat + after) {
        let (before, after) = choose|before: Seq<char>, after: Seq<char>|
            s == #[trigger] (before + pat + after);
        let n = before.len() as int;
        assert(s.subrange(n, n + pat.len()) =~= pat);
        assert(text::occurs_at(s, pat, n));
    }
}

/// Whether a value, with white space around it, is one of the four words for yes.
pub open spec fn says_yes(value: Seq<char>) -> bool {
    is_word_in(value, "true"@) || is_word_in(value, "1"@) || is_word_in(value, "yes"@)
        || is_word_in(value, "on"@)
}

/// Whether a value, with white space around it, is one of the four words for no.
pub open spec fn says_no(value: Seq<char>) -> bool {
    is_word_in(value, "false"@) || is_word_in(value, "0"@) || is_word_in(value, "no"@)
        || is_word_in(value, "off"@)
}

/// A setting is turned on by one of the four words for yes and by nothing else. The file system
/// monitor, which can also name a hook, is turned on by all but white space and the four words for
/// no.
#[verifier::rlimit(40)]
pub proof fn law_words_turn_settings_on(value: Seq<char>)
    ensures
        git::is_enabled(value) == says_yes(value),
        git::is_fsmonitor_enabled(value) == !(is_blank(value) || says_no(value)),
{
    let word = words::trimmed(value);
    let nothing = Seq::<char>::empty();
    text_laws::law_trimming_leaves_the_word(value, "true"@);
    text_laws::law_trimming_leaves_the_word(value, "1"@);
    text_laws::law_trimming_leaves_the_word(value, "yes"@);
    text_laws::law_trimming_leaves_the_word(value, "on"@);
    text_laws::law_trimming_leaves_the_word(value, "false"@);
    text_laws::law_trimming_leaves_the_word(value, "0"@);
    text_laws::law_trimming_leaves_the_word(value, "no"@);
    text_laws::law_trimming_leaves_the_word(value, "off"@);
    text_laws::law_trimming_leaves_the_word(value, nothing);
    text_laws::law_trimming_leaves_the_word(value, word);
    assert(is_word_in(value, nothing) == is_blank(value)) by {
        if is_blank(value) {
            assert(value =~= value + nothing + nothing);
        }
        if is_word_in(value, nothing) {
            let (before, after) = choose|before: Seq<char>, after: Seq<char>|
                is_blank(before) && is_blank(after) && value == #[trigger] (before + nothing
                    + after);
            assert forall|i: int| 0 <= i < value.len() implies words::is_space(
                #[trigger] value[i],
            ) by {
                if i < before.len() {
                    assert(value[i] == before[i]);
                } else {
                    assert(value[i] == after[i - before.len()]);
                }
            }
        }
    }
    assert(word.len() == 0 ==> word =~= nothing);
    assert(word =~= nothing + word + nothing);
    assert(is_word_in(word, word));
    text_laws::law_trimming_leaves_the_word(word, word);
    reveal_strlit("true");
    reveal_strlit("1");
    reveal_strlit("yes");
    reveal_strlit("on");
    reveal_strlit("false");
    reveal_strlit("0");
    reveal_strlit("no");
    reveal_strlit("off");
    assert("true"@.len() == 4 && "1"@.len() == 1 && "yes"@.len() == 3 && "on"@.len() == 2);
    assert("false"@.len() == 5 && "0"@.len() == 1 && "no"@.len() == 2 && "off"@.len() == 3);
    assert("1"@[0] != "0"@[0]);
    assert("yes"@[0] != "off"@[0]);
    assert("on"@[0] != "no"@[0]);
}

/// Whether a line prints a setting: its key, one white space and its value, or the key alone.
pub open spec fn prints(line: Seq<char>, key: Seq<char>, value: Seq<char>) -> bool {
    ||| line == key && value.len() == 0
    ||| exists|c: char| words::is_space(c) && line == #[trigger] (key + seq![c] + value)
}

/// Whether a line prints the setting with a key.
pub open spec fn prints_key(line: Seq<char>, key: Seq<char>) -> bool {
    exists|value: Seq<char>| #[trigger] prints(line, key, value)
}

/// Whether line `i` is the last that prints the setting with a key, and turns it on.
pub open spec fn turns_on(lines: Seq<Seq<char>>, key: Seq<char>, i: int) -> bool {
    &&& exists|value: Seq<char>| #[trigger] prints(lines[i], key, value) && says_yes(value)
    &&& forall|j: int| i < j < lines.len() ==> !prints_key(#[trigger] lines[j], key)
}

/// Whether printed settings turn on the one with a key.
pub open spec fn is_turned_on(lines: Seq<Seq<char>>, key: Seq<char>) -> bool {
    exists|i: int| 0 <= i < lines.len() && #[trigger] turns_on(lines, key, i)
}

proof fn lemma_printed(line: Seq<char>, key: Seq<char>)
    requires
        forall|i: int| 0 <= i < key.len() ==> !words::is_space(#[trigger] key[i]),
    ensures
        prints_key(line, key) == (git::setting_key(line) == key),
        git::setting_key(line) == key ==> prints(line, key, git::setting_value(line)),
        forall|value: Seq<char>|
            #[trigger] prints(line, key, value) ==> git::setting_value(line) == value,
{
    let n = text::run_len(line, words::not_space()) as int;
    text::lemma_run_len_bounds(line, words::not_space());
    let value = git::setting_value(line);
    if git::setting_key(line) == key {
        if n < line.len() {
            assert(!words::not_space()(line[n]));
            assert(line =~= key + seq![line[n]] + value);
        } else {
            assert(line =~= key);
        }
        assert(prints(line, key, value));
    }
    assert forall|value: Seq<char>| #[trigger] prints(line, key, value) implies git::setting_value(
        line,
    ) == value && git::setting_key(line) == key by {
        let k = key.len();
        assert forall|j: int| 0 <= j < k implies words::not_space()(#[trigger] line[j]) by {
            assert(line[j] == key[j]);
        }
        if line == key && value.len() == 0 {
            text::lemma_run_len(line, words::not_space(), k);
            assert(line.take(k as int) =~= key);
            assert(value =~= Seq::empty());
        } else {
            let c = choose|c: char|
                words::is_space(c) && line == #[trigger] (key + seq![c] + value);
            assert(line[k as int] == c);
            text::lemma_run_len(line, words::not_space(), k);
            assert(line.take(k as int) =~= key);
            assert(line.skip(k as int + 1) =~= value);
        }
    }
}

#[verifier::rlimit(40)]
proof fn lemma_is_set(lines: Seq<Seq<char>>, key: Seq<char>)
    requires
        forall|i: int| 0 <= i < key.len() ==> !words::is_space(#[trigger] key[i]),
    ensures
        git::is_set(lines, key) == is_turned_on(lines, key),
    decreases lines.len(),
{
    if lines.len() > 0 {
        let n = lines.len() - 1;
        let rest = lines.drop_last();
        lemma_printed(lines[n], key);
        lemma_is_set(rest, key);
        law_words_turn_settings_on(git::setting_value(lines[n]));
        if git::setting_key(lines[n]) == key {
            assert(git::is_set(lines, key) == says_yes(git::setting_value(lines[n])));
            if git::is_set(lines, key) {
                assert(prints(lines[n], key, git::setting_value(lines[n])));
                assert(turns_on(lines, key, n));
            }
            if is_turned_on(lines, key) {
                let i = choose|i: int| 0 <= i < lines.len() && #[trigger] turns_on(lines, key, i);
                if i < n {
                    assert(!prints_key(lines[n], key));
                }
                let value = choose|value: Seq<char>| #[trigger]
                    prints(lines[i], key, value) && says_yes(value);
                assert(prints(lines[n], key, value));
            }
        } else {
            assert(!prints_key(lines[n], key));
            if is_turned_on(rest, key) {
                let i = choose|i: int| 0 <= i < rest.len() && #[trigger] turns_on(rest, key, i);
                assert(lines[i] == rest[i]);
                assert forall|j: int| i < j < lines.len() implies !prints_key(
                    #[trigger] lines[j],
                    key,
                ) by {
                    if j < n {
                        assert(rest[j] == lines[j]);
                    }
                }
                assert(turns_on(lines, key, i));
            }
            if is_turned_on(lines, key) {
                let i = choose|i: int| 0 <= i < lines.len() && #[trigger] turns_on(lines, key, i);
                let value = choose|value: Seq<char>| #[trigger]
                    prints(lines[i], key, value) && says_yes(value);
                assert(i != n);
                assert(lines[i] == rest[i]);
                assert forall|j: int| i < j < rest.len() implies !prints_key(
                    #[trigger] rest[j],
                    key,
                ) by {
                    assert(rest[j] == lines[j]);
                }
                assert(turns_on(rest, key, i));
            }
        }
    }
}

/// A repository has a sparse index where the last printed `index.sparse` says yes; otherwise it is
/// a sparse checkout where the last printed `core.sparsecheckout` says yes.
pub proof fn law_last_settings_decide_the_mode(output: Seq<char>, lines: Seq<Seq<char>>)
    requires
        is_lines_of(lines, output),
    ensures
        git::configured_mode(output) == (if is_turned_on(lines, "index.sparse"@) {
            GitRepoMode::SparseIndex
        } else if is_turned_on(lines, "core.sparsecheckout"@) {
            GitRepoMode::SparseCheckout
        } else {
            GitRepoMode::Standard
        }),
{
    text_laws::lemma_lines_once(lines, output);
    reveal_strlit("index.sparse");
    reveal_strlit("core.sparsecheckout");
    lemma_is_set(lines, "index.sparse"@);
    lemma_is_set(lines, "core.sparsecheckout"@);
}

/// What a command that gave no output is reported as: its own words where it ran, and after a
/// remark where it could not be started.
pub open spec fn report(error: CommandOutputError) -> Seq<char> {
    match error.kind {
        CommandOutputErrorKind::Unsuccessful => error.stderr@,
        CommandOutputErrorKind::NotFound => "Failed to run git: "@ + error.stderr@,
        CommandOutputErrorKind::SpawnFailed => "Failed to run git: "@ + error.stderr@,
    }
}

/// Whether `res` can come of one run of git in a directory. Four arguments stand before the given
/// ones: commits are not signed, and new repositories keep their references in files. What git
/// printed is handed on as it is, and a failure as its report.
pub open spec fn is_run<R: Fn(&str, &Vec<String>) -> Result<String, CommandOutputError>>(
    run: R,
    workdir: Seq<char>,
    args: Seq<Seq<char>>,
    res: Result<String, TuicrError>,
) -> bool {
    exists|dir: &str, given: &Vec<String>, out: Result<String, CommandOutputError>|
        {
            &&& #[trigger] run.ensures((dir, given), out)
            &&& dir@ == workdir
            &&& given@.len() == args.len() + 4
            &&& given@[0]@ == "-c"@
            &&& given@[1]@ == "commit.gpgsign=false"@
            &&& given@[2]@ == "-c"@
            &&& given@[3]@ == "init.defaultRefFormat=files"@
            &&& forall|i: int| 0 <= i < args.len() ==> #[trigger] given@[i + 4]@ == args[i]
            &&& match out {
                Ok(printed) => res == Ok::<String, TuicrError>(printed),
                Err(error) => (res matches Err(TuicrError::VcsCommand(message)) && message@
                    == report(error)),
            }
        }
}

/// Every git command is run in its directory with its arguments, and gives what git gave.
#[verifier::rlimit(40)]
pub proof fn law_git_is_run_with_its_arguments<
    R: Fn(&str, &Vec<String>) -> Result<String, CommandOutputError>,
>(run: R, workdir: Seq<char>, args: Seq<Seq<char>>, res: Result<String, TuicrError>)
    ensures
        git::git_gives(run, workdir, args, res) == is_run(run, workdir, args, res),
{
    let leading = git::leading_arguments();
    if git::git_gives(run, workdir, args, res) {
        let (dir, given, out) = choose|
            dir: &str,
            given: &Vec<String>,
            out: Result<String, CommandOutputError>,
        |
            dir@ == workdir && text::views(given@) == leading + args && #[trigger] run.ensures(
                (dir, given),
                out,
            ) && git::is_git_result(out, res);
        let views = text::views(given@);
        assert(views.len() == 4 + args.len() && views.len() == given@.len());
        assert(views[0] == given@[0]@ && views[1] == given@[1]@);
        assert(views[2] == given@[2]@ && views[3] == given@[3]@);
        assert forall|i: int| 0 <= i < args.len() implies #[trigger] given@[i + 4]@ == args[i] by {
            assert(views[i + 4] == given@[i + 4]@);
        }
        assert(run.ensures((dir, given), out));
    }
    if is_run(run, workdir, args, res) {
        let (dir, given, out) = choose|
            dir: &str,
            given: &Vec<String>,
            out: Result<String, CommandOutputError>,
        |
            {
                &&& #[trigger] run.ensures((dir, given), out)
                &&& dir@ == workdir
                &&& given@.len() == args.len() + 4
                &&& given@[0]@ == "-c"@
                &&& given@[1]@ == "commit.gpgsign=false"@
                &&& given@[2]@ == "-c"@
                &&& given@[3]@ == "init.defaultRefFormat=files"@
                &&& forall|i: int| 0 <= i < args.len() ==> #[trigger] given@[i + 4]@ == args[i]
                &&& match out {
                    Ok(printed) => res == Ok::<String, TuicrError>(printed),
                    Err(error) => (res matches Err(TuicrError::VcsCommand(message)) && message@
                        == report(error)),
                }
            };
        let views = text::views(given@);
        assert forall|k: int| 0 <= k < views.len() implies views[k] == (leading + args)[k] by {
            if k >= 4 {
                assert(given@[(k - 4) + 4]@ == args[k - 4]);
            }
        }
        assert(views =~= leading + args);
        assert(run.ensures((dir, given), out));
        assert(git::is_git_result(out, res));
    }
}

/// Whether git, asked one question in a directory, can answer so.
pub open spec fn is_answered<R: Fn(&str, &Vec<String>) -> Result<String, CommandOutputError>>(
    run: R,
    workdir: Seq<char>,
    question: Seq<Seq<char>>,
    is_yes: spec_fn(Seq<char>) -> bool,
    answer: bool,
) -> bool {
    exists|out: Result<String, TuicrError>| #[trigger]
        is_run(run, workdir, question, out) && answer == (out matches Ok(printed) && is_yes(
            printed@,
        ))
}

/// Whether a word is `reftable` in any mixture of small letters and capitals.
pub open spec fn is_reftable_word(word: Seq<char>) -> bool {
    word.len() == 8 && forall|k: int|
        0 <= k < 8 ==> #[trigger] word[k] == "reftable"@[k] || word[k] == "REFTABLE"@[k]
}

/// What git prints of the object format of a repository with SHA-256.
pub open spec fn names_sha256() -> spec_fn(Seq<char>) -> bool {
    |printed: Seq<char>| is_word_in(printed, "sha256"@)
}

/// What git prints of the reference storage of a repository with reftable.
pub open spec fn names_reftable() -> spec_fn(Seq<char>) -> bool {
    |printed: Seq<char>|
        exists|word: Seq<char>| #[trigger] is_word_in(printed, word) && is_reftable_word(word)
}

/// What git prints of a setting that is on.
pub open spec fn names_yes() -> spec_fn(Seq<char>) -> bool {
    |printed: Seq<char>| says_yes(printed)
}

proof fn lemma_reftable(printed: Seq<char>)
    ensures
        (text::lowered(words::trimmed(printed)) == "reftable"@) == names_reftable()(printed),
{
    let word = words::trimmed(printed);
    let low = text::lowered(word);
    reveal_strlit("reftable");
    reveal_strlit("REFTABLE");
    text_laws::law_trimming_leaves_the_word(printed, word);
    assert forall|k: int| 0 <= k < 8 && word.len() == 8 implies (low[k] == "reftable"@[k]) == (
    word[k] == "reftable"@[k] || word[k] == "REFTABLE"@[k]) by {
        assert(low[k] == text::lower_char(word[k]));
    }
    if low == "reftable"@ {
        assert(low.len() == word.len());
        assert(is_reftable_word(word)) by {
            assert forall|k: int| 0 <= k < 8 implies #[trigger] word[k] == "reftable"@[k] || word[k]
                == "REFTABLE"@[k] by {
                assert(low[k] == "reftable"@[k]);
            }
        }
        assert(is_word_in(printed, word));
    }
    if names_reftable()(printed) {
        let other = choose|other: Seq<char>| #[trigger]
            is_word_in(printed, other) && is_reftable_word(other);
        text_laws::law_trimming_leaves_the_word(printed, other);
        assert(low =~= "reftable"@) by {
            assert forall|k: int| 0 <= k < 8 implies low[k] == "reftable"@[k] by {
                assert(other[k] == word[k]);
            }
        }
    }
}

/// Git is asked for the object format, the reference storage, the split index and the URL of a
/// remote, each with its own question. A repository uses SHA-256, reftable or a split index where
/// git prints so, and does not where git fails.
#[verifier::rlimit(40)]
pub proof fn law_git_answers_its_questions<
    R: Fn(&str, &Vec<String>) -> Result<String, CommandOutputError>,
>(run: R, cwd: Seq<char>, answer: bool)
    ensures
        git::sha256_told(run, cwd, answer) == is_answered(
            run,
            cwd,
            seq!["rev-parse"@, "--show-object-format"@],
            names_sha256(),
            answer,
        ),
        git::reftable_told(run, cwd, answer) == is_answered(
            run,
            cwd,
            seq!["config"@, "--get"@, "extensions.refStorage"@],
            names_reftable(),
            answer,
        ),
        git::split_index_told(run, cwd, answer) == is_answered(
            run,
            cwd,
            seq!["config"@, "--get"@, "core.splitIndex"@],
            names_yes(),
            answer,
        ),
{
    assert forall|args: Seq<Seq<char>>, out: Result<String, TuicrError>| #[trigger]
        git::git_gives(run, cwd, args, out) == is_run(run, cwd, args, out) by {
        law_git_is_run_with_its_arguments(run, cwd, args, out);
    }
    assert forall|args: Seq<Seq<char>>, out: Result<String, TuicrError>| #[trigger]
        is_run(run, cwd, args, out) == git::git_gives(run, cwd, args, out) by {
        law_git_is_run_with_its_arguments(run, cwd, args, out);
    }
    assert forall|out: Result<String, TuicrError>| #[trigger] git::states_sha256(out) == (
    out matches Ok(printed) && names_sha256()(printed@)) by {
        if let Ok(printed) = out {
            text_laws::law_trimming_leaves_the_word(printed@, "sha256"@);
        }
    }
    assert forall|out: Result<String, TuicrError>| #[trigger] git::states_reftable(out) == (
    out matches Ok(printed) && names_reftable()(printed@)) by {
        if let Ok(printed) = out {
            lemma_reftable(printed@);
        }
    }
    assert forall|out: Result<String, TuicrError>| #[trigger] git::states_split_index(out) == (
    out matches Ok(printed) && names_yes()(printed@)) by {
        if let Ok(printed) = out {
            law_words_turn_settings_on(printed@);
        }
    }
}

/// How git is asked for the settings of a sparse checkout.
pub open spec fn sparse_question() -> Seq<Seq<char>> {
    seq!["config"@, "--get-regexp"@, "^(core\\.sparsecheckout|index\\.sparse)$"@]
}

/// The URL of a remote is asked for by its name, which stands behind two dashes, and the settings
/// of a sparse checkout by their two keys.
pub proof fn law_questions_are_spelled_out(name: Seq<char>)
    ensures
        git::remote_url_arguments(name) == seq!["remote"@, "get-url"@, "--"@, name],
        git::sparse_settings_arguments() == sparse_question(),
        forall|out: Result<String, TuicrError>|
            #[trigger] git::output_or_nothing(out).len() > 0 ==> out is Ok,
        forall|printed: String| #[trigger]
            git::output_or_nothing(Ok::<String, TuicrError>(printed)) == printed@,
{
}

/// Whether git can answer that the library backend cannot read a repository: it uses reftable, a
/// split index or SHA-256.
pub open spec fn is_beyond_library<
    R: Fn(&str, &Vec<String>) -> Result<String, CommandOutputError>,
>(run: R, cwd: Seq<char>) -> bool {
    ||| is_answered(
        run,
        cwd,
        seq!["config"@, "--get"@, "extensions.refStorage"@],
        names_reftable(),
        true,
    )
    ||| is_answered(
        run,
        cwd,
        seq!["config"@, "--get"@, "core.splitIndex"@],
        names_yes(),
        true,
    )
    ||| is_answered(
        run,
        cwd,
        seq!["rev-parse"@, "--show-object-format"@],
        names_sha256(),
        true,
    )
}

/// Whether git can answer that the library backend can read a repository, as far as these three
/// questions go.
pub open spec fn is_within_library<
    R: Fn(&str, &Vec<String>) -> Result<String, CommandOutputError>,
>(run: R, cwd: Seq<char>) -> bool {
    &&& is_answered(
        run,
        cwd,
        seq!["config"@, "--get"@, "extensions.refStorage"@],
        names_reftable(),
        false,
    )
    &&& is_answered(
        run,
        cwd,
        seq!["config"@, "--get"@, "core.splitIndex"@],
        names_yes(),
        false,
    )
    &&& is_answered(
        run,
        cwd,
        seq!["rev-parse"@, "--show-object-format"@],
        names_sha256(),
        false,
    )
}

/// Whether these are the lines that git printed; where it failed there are none.
pub open spec fn are_printed(out: Result<String, TuicrError>, lines: Seq<Seq<char>>) -> bool {
    match out {
        Ok(printed) => is_lines_of(lines, printed@),
        Err(_) => lines.len() == 0,
    }
}

/// Whether git, asked at the root of a repository, can print settings that make it sparse, or that
/// do not.
pub open spec fn can_be_sparse<R: Fn(&str, &Vec<String>) -> Result<String, CommandOutputError>>(
    run: R,
    root: Seq<char>,
    sparse: bool,
) -> bool {
    exists|out: Result<String, TuicrError>, lines: Seq<Seq<char>>|
        {
            &&& #[trigger] is_run(
                run,
                root,
                sparse_question(),
                out,
            )
            &&& #[trigger] are_printed(out, lines)
            &&& sparse == (is_turned_on(lines, "index.sparse"@) || is_turned_on(
                lines,
                "core.sparsecheckout"@,
            ))
        }
}

proof fn lemma_sparse<R: Fn(&str, &Vec<String>) -> Result<String, CommandOutputError>>(
    run: R,
    root: Seq<char>,
    out: Result<String, TuicrError>,
)
    requires
        git::git_gives(run, root, git::sparse_settings_arguments(), out),
    ensures
        can_be_sparse(
            run,
            root,
            git::configured_mode(git::output_or_nothing(out)) != GitRepoMode::Standard,
        ),
{
    let printed = git::output_or_nothing(out);
    let lines = text::lines(printed);
    law_questions_are_spelled_out(printed);
    law_git_is_run_with_its_arguments(run, root, git::sparse_settings_arguments(), out);
    text_laws::law_every_text_has_lines(printed);
    law_last_settings_decide_the_mode(printed, lines);
    assert(is_lines_of(lines, printed));
    assert(are_printed(out, lines));
    assert(is_run(run, root, git::sparse_settings_arguments(), out));
}

/// What a discovered repository has gone through.
///
/// The command line backend is opened where the user asks for it or git says that the library
/// backend cannot read the repository, and in place of an open library backend that cannot read a
/// sparse checkout. The library backend is kept in all other cases. An error is that of the
/// backend that could not be opened.
#[verifier::rlimit(40)]
pub proof fn law_backends_are_chosen_by_what_they_can_read<
    L: VcsBackend,
    C,
    R: Fn(&str, &Vec<String>) -> Result<String, CommandOutputError>,
    P: Fn(&str, &DiffWhitespaceMode) -> Result<L, TuicrError>,
    O: Fn(&str, &DiffWhitespaceMode) -> Result<C, TuicrError>,
>(
    run: R,
    open_libgit2: P,
    open_cli: O,
    cwd: &str,
    preference: GitBackendPreference,
    mode: &DiffWhitespaceMode,
    res: Result<GitBackend<L, C>, TuicrError>,
)
    requires
        git_backend::is_discovered(run, open_libgit2, open_cli, cwd, preference, mode, res),
    ensures
        match res {
            Ok(GitBackend::Cli(backend)) => {
                &&& open_cli.ensures((cwd, mode), Ok(backend))
                &&& preference == GitBackendPreference::Cli || is_beyond_library(run, cwd@)
                    || has_given_way(run, open_libgit2, cwd, mode)
            },
            Ok(GitBackend::Libgit2(backend)) => {
                &&& open_libgit2.ensures((cwd, mode), Ok(backend))
                &&& preference == GitBackendPreference::Libgit2
                &&& is_within_library(run, cwd@)
                &&& can_be_kept(run, backend)
            },
            Err(error) => {
                ||| open_libgit2.ensures((cwd, mode), Err(error)) && preference
                    == GitBackendPreference::Libgit2 && is_within_library(run, cwd@)
                ||| open_cli.ensures((cwd, mode), Err(error)) && (preference
                    == GitBackendPreference::Cli || is_beyond_library(run, cwd@) || has_given_way(
                    run,
                    open_libgit2,
                    cwd,
                    mode,
                ))
            },
        },
{
    law_git_answers_its_questions(run, cwd@, true);
    law_git_answers_its_questions(run, cwd@, false);
    if git_backend::cli_told(run, cwd@, preference, true) && git_backend::is_cli_backend(
        open_cli,
        cwd,
        mode,
        res,
    ) {
        assert(preference == GitBackendPreference::Cli || is_beyond_library(run, cwd@));
    } else {
        assert(is_within_library(run, cwd@));
        let opened = choose|opened: Result<L, TuicrError>| #[trigger]
            open_libgit2.ensures((cwd, mode), opened) && match opened {
                Err(error) => res == Err::<GitBackend<L, C>, TuicrError>(error),
                Ok(backend) => {
                    ||| git_backend::gives_way(run, backend, true) && git_backend::is_cli_backend(
                        open_cli,
                        cwd,
                        mode,
                        res,
                    )
                    ||| git_backend::gives_way(run, backend, false) && res == Ok::<
                        GitBackend<L, C>,
                        TuicrError,
                    >(GitBackend::Libgit2(backend))
                },
            };
        if let Ok(backend) = opened {
            lemma_gives_way(run, backend);
            if git_backend::gives_way(run, backend, true) && git_backend::is_cli_backend(
                open_cli,
                cwd,
                mode,
                res,
            ) {
                assert(open_libgit2.ensures((cwd, mode), Ok(backend)));
                assert(has_given_way(run, open_libgit2, cwd, mode));
            }
        }
    }
}

/// Whether an open library backend can stay: the tree is checked out whole, or the backend reads a
/// sparse checkout.
pub open spec fn can_be_kept<
    L: VcsBackend,
    R: Fn(&str, &Vec<String>) -> Result<String, CommandOutputError>,
>(run: R, backend: L) -> bool {
    exists|info: &VcsInfo|
        {
            &&& #[trigger] call_ensures(L::info, (&backend,), info)
            &&& can_be_sparse(run, info.root_path@, false) || (can_be_sparse(
                run,
                info.root_path@,
                true,
            ) && call_ensures(L::supports_sparse_checkout, (&backend,), true))
        }
}

/// Whether an open library backend has to give way: part of the tree is not checked out, and the
/// backend does not read that.
pub open spec fn must_give_way<
    L: VcsBackend,
    R: Fn(&str, &Vec<String>) -> Result<String, CommandOutputError>,
>(run: R, backend: L) -> bool {
    exists|info: &VcsInfo|
        {
            &&& #[trigger] call_ensures(L::info, (&backend,), info)
            &&& can_be_sparse(run, info.root_path@, true)
            &&& call_ensures(L::supports_sparse_checkout, (&backend,), false)
        }
}

/// Whether a library backend was opened and had to give way, in a repository that it could read
/// but for its sparse checkout.
pub open spec fn has_given_way<
    L: VcsBackend,
    R: Fn(&str, &Vec<String>) -> Result<String, CommandOutputError>,
    P: Fn(&str, &DiffWhitespaceMode) -> Result<L, TuicrError>,
>(run: R, open_libgit2: P, cwd: &str, mode: &DiffWhitespaceMode) -> bool {
    is_within_library(run, cwd@) && exists|backend: L| #[trigger]
        open_libgit2.ensures((cwd, mode), Ok(backend)) && must_give_way(run, backend)
}

proof fn lemma_gives_way<
    L: VcsBackend,
    R: Fn(&str, &Vec<String>) -> Result<String, CommandOutputError>,
>(run: R, backend: L)
    ensures
        git_backend::gives_way(run, backend, true) ==> must_give_way(run, backend),
        git_backend::gives_way(run, backend, false) ==> can_be_kept(run, backend),
{
    assert forall|answer: bool| #[trigger] git_backend::gives_way(run, backend, answer) implies if answer {
        must_give_way(run, backend)
    } else {
        can_be_kept(run, backend)
    } by {
        let (info, out) = choose|info: &VcsInfo, out: Result<String, TuicrError>|
            #![trigger call_ensures(L::info, (&backend,), info), git::git_gives(run, info.root_path@, git::sparse_settings_arguments(), out)]
            call_ensures(L::info, (&backend,), info) && git::git_gives(
                run,
                info.root_path@,
                git::sparse_settings_arguments(),
                out,
            ) && if git::configured_mode(git::output_or_nothing(out)) == GitRepoMode::Standard {
                !answer
            } else {
                call_ensures(L::supports_sparse_checkout, (&backend,), !answer)
            };
        lemma_sparse(run, info.root_path@, out);
        assert(call_ensures(L::info, (&backend,), info));
    }
}

/// What is known of a repository comes from the one backend that was chosen for it.
pub proof fn law_the_chosen_backend_knows_its_repository<
    L: VcsBackend,
    C: VcsBackend<
        Highlighter = L::Highlighter,
        ChangeStatus = L::ChangeStatus,
        ChangeKind = L::ChangeKind,
        CommitInfo = L::CommitInfo,
        RevisionRange = L::RevisionRange,
    >,
>(library: L, cli: C, info: &VcsInfo)
    ensures
        GitBackend::<L, C>::Libgit2(library).info_told(info) == call_ensures(
            L::info,
            (&library,),
            info,
        ),
        GitBackend::<L, C>::Cli(cli).info_told(info) == call_ensures(C::info, (&cli,), info),
{
}

} // verus!
