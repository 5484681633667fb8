//! The command boxes: splitting a typed line into arguments, telling commands that only read from
//! those that may write, and what is run, recorded and refreshed.
use crate::pieces;
use crate::text;
use vstd::prelude::*;
use vstd::string::*;

verus! {

/// What a command printed and how it ended.
pub struct RawGitResult {
    pub stdout: String,
    pub stderr: String,
    pub success: bool,
    pub exit_code: Option<i32>,
    pub read_only: bool,
}

/// The result of a terminal command.
pub type TerminalCommandResult = RawGitResult;

// The grammar of the command box.

/// The text inside a quotation that was opened by `q`, and what follows its closing quote. Within
/// double quotes a backslash makes a following quote or backslash literal.
pub open spec fn quoted(input: Seq<char>, q: char) -> Option<(Seq<char>, Seq<char>)>
    decreases input.len(),
{
    if input.len() == 0 {
        None
    } else if q == '"' && input[0] == '\\' && input.len() > 1 && (input[1] == '"' || input[1] == '\\') {
        match quoted(input.skip(2), q) {
            Some((body, after)) => Some((seq![input[1]] + body, after)),
            None => None,
        }
    } else if input[0] == q {
        Some((Seq::empty(), input.skip(1)))
    } else {
        match quoted(input.skip(1), q) {
            Some((body, after)) => Some((seq![input[0]] + body, after)),
            None => None,
        }
    }
}

/// What follows a quotation is shorter than the quotation and it together.
pub proof fn lemma_quoted_shorter(input: Seq<char>, q: char)
    ensures
        quoted(input, q) matches Some((body, after)) ==> after.len() < input.len(),
    decreases input.len(),
{
    if input.len() > 0 {
        if q == '"' && input[0] == '\\' && input.len() > 1 && (input[1] == '"' || input[1] == '\\') {
            lemma_quoted_shorter(input.skip(2), q);
        } else if input[0] != q {
            lemma_quoted_shorter(input.skip(1), q);
        }
    }
}

/// The words of `input`, where `word` is what has been read of the first one, if it has begun.
/// White space ends a word; a quotation is part of the word in which it stands. There is no answer
/// when a quotation is not closed.
pub open spec fn words_from(input: Seq<char>, word: Option<Seq<char>>) -> Option<Seq<Seq<char>>>
    decreases input.len(),
{
    let begun = match word {
        Some(w) => w,
        None => Seq::<char>::empty(),
    };
    if input.len() == 0 {
        match word {
            Some(w) => Some(seq![w]),
            None => Some(Seq::empty()),
        }
    } else if input[0] == '"' || input[0] == '\'' {
        proof {
            lemma_quoted_shorter(input.skip(1), input[0]);
        }
        match quoted(input.skip(1), input[0]) {
            Some((body, after)) => words_from(after, Some(begun + body)),
            None => None,
        }
    } else if text::is_white_space(input[0]) {
        match word {
            Some(w) => match words_from(input.skip(1), None) {
                Some(rest) => Some(seq![w] + rest),
                None => None,
            },
            None => words_from(input.skip(1), None),
        }
    } else {
        words_from(input.skip(1), Some(begun.push(input[0])))
    }
}

/// The words of a typed line; none when a quotation is not closed.
pub open spec fn words(input: Seq<char>) -> Option<Seq<Seq<char>>> {
    words_from(input, None)
}

/// `done` followed by `rest`.
spec fn preceded(done: Seq<Seq<char>>, rest: Option<Seq<Seq<char>>>) -> Option<Seq<Seq<char>>> {
    match rest {
        Some(r) => Some(done + r),
        None => None,
    }
}

/// What is still to come when `word` stands open inside a quotation.
spec fn words_in_quote(input: Seq<char>, q: char, word: Seq<char>) -> Option<Seq<Seq<char>>> {
    match quoted(input, q) {
        Some((body, after)) => words_from(after, Some(word + body)),
        None => None,
    }
}

/// The words of a typed line.
pub open spec fn tokenized(input: Seq<char>, r: Result<Vec<String>, String>) -> bool {
    match r {
        Ok(tokens) => words(input) == Some(text::texts_view(tokens@)),
        Err(e) => words(input) is None && e@ == "Unclosed quote in command"@,
    }
}

/// Splits a typed line into words. The words are handed to Git as they are, never to a shell.
pub fn tokenize_git_args(input: &str) -> (r: Result<Vec<String>, String>)
    ensures
        tokenized(input@, r),
{
    let chars: Vec<char> = text::chars_of(input);
    let n: usize = chars.len();
    let mut tokens: Vec<String> = Vec::new();
    let mut current: String = String::new();
    let mut has_current: bool = false;
    let mut quote: Option<char> = None;
    let mut i: usize = 0;
    proof {
        assert(input@.skip(0) =~= input@);
        assert(text::texts_view(tokens@) =~= Seq::empty());
        assert(preceded(text::texts_view(tokens@), words(input@)) =~= words(input@)) by {
            if words(input@) is Some {
                assert(Seq::<Seq<char>>::empty() + words(input@)->0 =~= words(input@)->0);
            }
        }
    }
    while i < n
        invariant
            i <= n,
            n == chars@.len(),
            chars@ == input@,
            quote matches Some(q) ==> has_current && (q == '"' || q == '\''),
            !has_current ==> current@ == Seq::<char>::empty(),
            words(input@) == preceded(
                text::texts_view(tokens@),
                match quote {
                    Some(q) => words_in_quote(input@.skip(i as int), q, current@),
                    None => words_from(
                        input@.skip(i as int),
                        if has_current {
                            Some(current@)
                        } else {
                            None
                        },
                    ),
                },
            ),
        decreases n - i,
    {
        let ch: char = chars[i];
        let ghost s = input@.skip(i as int);
        let ghost before = current@;
        proof {
            assert(s.skip(1) =~= input@.skip(i + 1));
            assert(s[0] == ch);
        }
        match quote {
            Some(q) => {
                if ch == '\\' && q == '"' && i + 1 < n && (chars[i + 1] == '"' || chars[i + 1] == '\\') {
                    let next: char = chars[i + 1];
                    current.push(next);
                    proof {
                        assert(s.skip(2) =~= input@.skip(i + 2));
                        assert(s[1] == next);
                        lemma_push_body(before, next, s.skip(2), q);
                    }
                    i = i + 2;
                } else if ch == q {
                    quote = None;
                    assert(before + Seq::<char>::empty() =~= before);
                    i = i + 1;
                } else {
                    current.push(ch);
                    proof {
                        lemma_push_body(before, ch, s.skip(1), q);
                    }
                    i = i + 1;
                }
            },
            None => {
                if ch == '"' || ch == '\'' {
                    quote = Some(ch);
                    has_current = true;
                    i = i + 1;
                } else if text::white_space(ch) {
                    if has_current {
                        let ghost done = text::texts_view(tokens@);
                        tokens.push(current);
                        proof {
                            assert(text::texts_view(tokens@) =~= done.push(before));
                            if words_from(s.skip(1), None) is Some {
                                let rest = words_from(s.skip(1), None)->0;
                                assert(done + (seq![before] + rest) =~= done.push(before) + rest);
                            }
                        }
                        current = String::new();
                        has_current = false;
                    }
                    i = i + 1;
                } else {
                    current.push(ch);
                    has_current = true;
                    i = i + 1;
                }
            },
        }
    }
    if quote.is_some() {
        return Err("Unclosed quote in command".to_owned());
    }
    if has_current {
        let ghost done = text::texts_view(tokens@);
        let ghost last = current@;
        tokens.push(current);
        assert(text::texts_view(tokens@) =~= done + seq![last]);
    } else {
        assert(text::texts_view(tokens@) + Seq::<Seq<char>>::empty() =~= text::texts_view(tokens@));
    }
    Ok(tokens)
}

/// Reading one more character of a quotation before its rest or with it is the same.
proof fn lemma_push_body(word: Seq<char>, c: char, rest: Seq<char>, q: char)
    ensures
        quoted(rest, q) matches Some((body, after)) ==> word + (seq![c] + body) == word.push(c) + body,
{
    if let Some((body, after)) = quoted(rest, q) {
        assert(word + (seq![c] + body) =~= word.push(c) + body);
    }
}

// Quoting, the inverse of splitting.

/// `word` with a backslash before each double quote and each backslash.
pub open spec fn escaped(word: Seq<char>) -> Seq<char>
    decreases word.len(),
{
    if word.len() == 0 {
        Seq::empty()
    } else if word[0] == '"' || word[0] == '\\' {
        seq!['\\', word[0]] + escaped(word.skip(1))
    } else {
        seq![word[0]] + escaped(word.skip(1))
    }
}

/// `word` in double quotes.
pub open spec fn in_quotes(word: Seq<char>) -> Seq<char> {
    seq!['"'] + escaped(word) + seq!['"']
}

/// Every word in double quotes, with one space between two.
pub open spec fn quoted_line(list: Seq<Seq<char>>) -> Seq<char> {
    pieces::joined(list.map_values(|w: Seq<char>| in_quotes(w)), seq![' '])
}

proof fn lemma_quoted_of_escaped(word: Seq<char>, rest: Seq<char>)
    ensures
        quoted(escaped(word) + seq!['"'] + rest, '"') == Some((word, rest)),
    decreases word.len(),
{
    let input = escaped(word) + seq!['"'] + rest;
    if word.len() == 0 {
        assert(input.skip(1) =~= rest);
        assert(word =~= Seq::empty());
    } else {
        let tail = word.skip(1);
        lemma_quoted_of_escaped(tail, rest);
        assert(seq![word[0]] + tail =~= word);
        if word[0] == '"' || word[0] == '\\' {
            assert(input.skip(2) =~= escaped(tail) + seq!['"'] + rest);
            assert(input[0] == '\\' && input[1] == word[0]);
        } else {
            assert(input.skip(1) =~= escaped(tail) + seq!['"'] + rest);
            assert(input[0] == word[0]);
        }
    }
}

/// One quoted word at the end of a line is read as that word.
proof fn lemma_words_of_quoted(word: Seq<char>, rest: Seq<char>)
    ensures
        words_from(in_quotes(word) + rest, None) == words_from(rest, Some(word)),
{
    let input = in_quotes(word) + rest;
    assert(input.skip(1) =~= escaped(word) + seq!['"'] + rest);
    lemma_quoted_of_escaped(word, rest);
    assert(Seq::<char>::empty() + word =~= word);
}

proof fn lemma_words_of_line_then(list: Seq<Seq<char>>, word: Seq<char>)
    ensures
        words_from(quoted_line(list.push(word)), None) == Some(list.push(word)),
    decreases list.len(),
{
    let quotes = |w: Seq<char>| in_quotes(w);
    let all = list.push(word);
    let q = all.map_values(quotes);
    if list.len() == 0 {
        assert(q.len() == 1 && q[0] == in_quotes(word));
        lemma_words_of_quoted(word, Seq::empty());
        assert(in_quotes(word) + Seq::<char>::empty() =~= in_quotes(word));
        assert(seq![word] =~= all);
    } else {
        lemma_line_split(all);
        let tail = all.drop_first();
        assert(tail =~= list.drop_first().push(word));
        lemma_words_of_line_then(list.drop_first(), word);
        let first = all[0];
        let rest = seq![' '] + quoted_line(tail);
        lemma_words_of_quoted(first, rest);
        assert(rest.skip(1) =~= quoted_line(tail));
        assert(seq![first] + tail =~= all);
    }
}

/// The first word of a line stands before a space and the line of the others.
proof fn lemma_line_split(list: Seq<Seq<char>>)
    requires
        list.len() >= 2,
    ensures
        quoted_line(list) == in_quotes(list[0]) + (seq![' '] + quoted_line(list.drop_first())),
    decreases list.len(),
{
    let quotes = |w: Seq<char>| in_quotes(w);
    let q = list.map_values(quotes);
    let t = list.drop_first();
    assert(t.map_values(quotes) =~= q.drop_first());
    if list.len() == 2 {
        assert(q.drop_last().len() == 1);
        assert(pieces::joined(q.drop_last(), seq![' ']) == in_quotes(list[0]));
        assert(q.drop_first()[0] == q.last());
    } else {
        let front = list.drop_last();
        lemma_line_split(front);
        assert(front.map_values(quotes) =~= q.drop_last());
        assert(front.drop_first() =~= t.drop_last());
        assert(t.drop_last().map_values(quotes) =~= t.map_values(quotes).drop_last());
        assert(quoted_line(t) == quoted_line(t.drop_last()) + seq![' '] + q.last());
    }
    assert(quoted_line(list) =~= in_quotes(list[0]) + (seq![' '] + quoted_line(t)));
}

/// Any list of arguments can be typed: written in quotes, it is read back as it was.
pub proof fn law_quoted_line_is_read_back(list: Seq<Seq<char>>)
    ensures
        words(quoted_line(list)) == Some(list),
{
    if list.len() == 0 {
        assert(list =~= Seq::empty());
        assert(list.map_values(|w: Seq<char>| in_quotes(w)) =~= Seq::empty());
    } else {
        assert(list.drop_last().push(list.last()) =~= list);
        lemma_words_of_line_then(list.drop_last(), list.last());
    }
}

// Commands that only read.

/// The Git subcommands that are known to change nothing.
pub open spec fn reads_only(subcommand: Seq<char>) -> bool {
    ||| subcommand == "status"@
    ||| subcommand == "log"@
    ||| subcommand == "diff"@
    ||| subcommand == "show"@
    ||| subcommand == "blame"@
    ||| subcommand == "ls-files"@
}

/// Whether a Git subcommand is known to change nothing. An unnecessary refresh is safer than stale
/// data, so every other subcommand counts as one that writes.
pub fn is_read_only_git_subcommand(subcommand: &str) -> (r: bool)
    ensures
        r == reads_only(subcommand@),
{
    text::same_text(subcommand, "status") || text::same_text(subcommand, "log") || text::same_text(
        subcommand,
        "diff",
    ) || text::same_text(subcommand, "show") || text::same_text(subcommand, "blame")
        || text::same_text(subcommand, "ls-files")
}

/// The programs besides Git that are known to change nothing.
pub open spec fn inspects_only(program: Seq<char>) -> bool {
    ||| program == "pwd"@
    ||| program == "ls"@
    ||| program == "dir"@
    ||| program == "whoami"@
    ||| program == "hostname"@
    ||| program == "which"@
    ||| program == "where"@
}

fn is_inspecting_program(program: &str) -> (r: bool)
    ensures
        r == inspects_only(program@),
{
    text::same_text(program, "pwd") || text::same_text(program, "ls") || text::same_text(program, "dir")
        || text::same_text(program, "whoami") || text::same_text(program, "hostname")
        || text::same_text(program, "which") || text::same_text(program, "where")
}

/// The characters by which a shell chains, redirects or substitutes commands.
pub open spec fn is_shell_operator(c: char) -> bool {
    c == '\n' || c == '\r' || c == ';' || c == '|' || c == '&' || c == '>' || c == '<' || c == '`'
}

/// Whether a shell would do more with `input` than run one plain command.
pub open spec fn uses_shell(input: Seq<char>) -> bool {
    ||| exists|i: int| 0 <= i < input.len() && is_shell_operator(#[trigger] input[i])
    ||| exists|i: int| 0 <= i < input.len() - 1 && #[trigger] input[i] == '$' && input[i + 1] == '('
}

fn has_shell_syntax(input: &str) -> (r: bool)
    ensures
        r == uses_shell(input@),
{
    let chars: Vec<char> = text::chars_of(input);
    for i in 0..chars.len()
        invariant
            chars@ == input@,
            forall|j: int| 0 <= j < i ==> !is_shell_operator(#[trigger] input@[j]),
            forall|j: int|
                0 <= j < i && j < input@.len() - 1 ==> !(#[trigger] input@[j] == '$' && input@[j + 1] == '('),
    {
        let c: char = chars[i];
        assert(input@[i as int] == c);
        if c == '\n' || c == '\r' || c == ';' || c == '|' || c == '&' || c == '>' || c == '<' || c == '`' {
            return true;
        }
        if c == '$' && i + 1 < chars.len() && chars[i + 1] == '(' {
            assert(input@[i + 1] == '(');
            return true;
        }
    }
    false
}

/// The terminal lines that are known to change nothing: one plain command, which is a reading Git
/// subcommand or an inspecting program.
pub open spec fn terminal_reads_only(input: Seq<char>) -> bool {
    !uses_shell(input) && match words(input) {
        Some(parts) => if parts.len() == 0 {
            false
        } else if text::ascii_lowered(parts[0]) == "git"@ {
            parts.len() > 1 && reads_only(text::ascii_lowered(parts[1]))
        } else {
            inspects_only(text::ascii_lowered(parts[0]))
        },
        None => false,
    }
}

/// Whether a terminal line is known to change nothing.
pub fn is_definitely_read_only_terminal_command(input: &str) -> (r: bool)
    ensures
        r == terminal_reads_only(input@),
{
    if has_shell_syntax(input) {
        return false;
    }
    match tokenize_git_args(input) {
        Ok(parts) => {
            if parts.len() == 0 {
                return false;
            }
            let ghost view = text::texts_view(parts@);
            assert(view[0] == parts@[0]@);
            let program: String = text::ascii_lowercase(parts[0].as_str());
            if text::same_text(program.as_str(), "git") {
                if parts.len() > 1 {
                    assert(view[1] == parts@[1]@);
                    let subcommand: String = text::ascii_lowercase(parts[1].as_str());
                    is_read_only_git_subcommand(subcommand.as_str())
                } else {
                    false
                }
            } else {
                is_inspecting_program(program.as_str())
            }
        },
        Err(_) => false,
    }
}

/// A line that a shell would read as more than one plain command never counts as only reading.
pub proof fn law_shell_syntax_is_never_read_only(input: Seq<char>, i: int)
    requires
        0 <= i < input.len(),
        is_shell_operator(input[i]) || (i + 1 < input.len() && input[i] == '$' && input[i + 1] == '('),
    ensures
        !terminal_reads_only(input),
{
    if is_shell_operator(input[i]) {
    } else {
        assert(input[i] == '$' && input[i + 1] == '(');
    }
}

/// A line whose quotation is not closed never counts as only reading.
pub proof fn law_unclosed_quote_is_never_read_only(input: Seq<char>)
    requires
        words(input) is None,
    ensures
        !terminal_reads_only(input),
{
}

// Running a command.

/// What a finished process left behind.
pub struct ProcessOutput {
    pub stdout: Vec<u8>,
    pub stderr: Vec<u8>,
    pub success: bool,
    pub exit_code: Option<i32>,
}

/// What is done once a command has ended or has been stopped.
pub struct CommandOutcome {
    /// The Git arguments that enter the command history.
    pub recorded: Option<Vec<String>>,
    /// Whether the history shows the command as successful.
    pub recorded_success: bool,
    /// Whether what is known of the repository has to be read anew.
    pub refresh: bool,
    /// What the caller is answered.
    pub result: Result<RawGitResult, String>,
}

/// A Git command that is ready to run.
pub struct GitCommandPlan {
    /// The subcommand and its arguments.
    pub parts: Vec<String>,
    /// All arguments of the `git` process.
    pub arguments: Vec<String>,
    pub read_only: bool,
}

/// The words of a Git line without a leading `git`.
pub open spec fn git_words(list: Seq<Seq<char>>) -> Seq<Seq<char>> {
    if list.len() > 0 && list[0] == "git"@ {
        list.drop_first()
    } else {
        list
    }
}

/// What a Git line asks for: a subcommand with its arguments, or an error.
pub open spec fn git_request(args: Seq<char>) -> Result<Seq<Seq<char>>, Seq<char>> {
    match words(args) {
        None => Err("Unclosed quote in command"@),
        Some(list) => if git_words(list).len() == 0 {
            Err("Type a git subcommand, e.g. \"status\" or \"log --oneline -10\""@)
        } else {
            Ok(git_words(list))
        },
    }
}

/// The arguments of a `git` process that runs `parts` in a repository without colours.
pub open spec fn git_arguments(repository_path: Seq<char>, parts: Seq<Seq<char>>) -> Seq<Seq<char>> {
    seq!["-C"@, repository_path, "-c"@, "color.ui=false"@] + parts
}

/// Reads a line of the Git command box.
pub fn plan_git_command(repository_path: &str, args: &str) -> (r: Result<GitCommandPlan, String>)
    ensures
        match r {
            Ok(plan) => {
                let parts = text::texts_view(plan.parts@);
                &&& git_request(args@) == Ok::<Seq<Seq<char>>, Seq<char>>(parts)
                &&& parts.len() > 0
                &&& text::texts_view(plan.arguments@) == git_arguments(repository_path@, parts)
                &&& plan.read_only == reads_only(parts[0])
            },
            Err(e) => git_request(args@) == Err::<Seq<Seq<char>>, Seq<char>>(e@),
        },
{
    let mut parts: Vec<String> = match tokenize_git_args(args) {
        Ok(list) => list,
        Err(e) => {
            return Err(e);
        },
    };
    let ghost list = text::texts_view(parts@);
    if parts.len() > 0 {
        assert(list[0] == parts@[0]@);
        if text::same_text(parts[0].as_str(), "git") {
            let _ = parts.remove(0);
            assert(text::texts_view(parts@) =~= list.drop_first());
        }
    }
    if parts.len() == 0 {
        return Err("Type a git subcommand, e.g. \"status\" or \"log --oneline -10\"".to_owned());
    }
    assert(text::texts_view(parts@)[0] == parts@[0]@);
    let read_only: bool = is_read_only_git_subcommand(parts[0].as_str());
    let mut arguments: Vec<String> = Vec::new();
    arguments.push("-C".to_owned());
    arguments.push(repository_path.to_owned());
    arguments.push("-c".to_owned());
    arguments.push("color.ui=false".to_owned());
    let ghost lead = seq!["-C"@, repository_path@, "-c"@, "color.ui=false"@];
    assert(text::texts_view(arguments@) =~= lead);
    for i in 0..parts.len()
        invariant
            text::texts_view(arguments@) == lead + text::texts_view(parts@).take(i as int),
    {
        let ghost had = arguments@;
        arguments.push(parts[i].clone());
        proof {
            assert(text::texts_view(arguments@) =~= text::texts_view(had).push(parts@[i as int]@));
            assert(text::texts_view(parts@).take(i + 1) =~= text::texts_view(parts@).take(i as int).push(
                parts@[i as int]@,
            ));
        }
    }
    assert(text::texts_view(parts@).take(parts@.len() as int) =~= text::texts_view(parts@));
    Ok(GitCommandPlan { parts, arguments, read_only })
}

/// A result that shows what a process printed and how it ended.
pub open spec fn shows(result: RawGitResult, output: ProcessOutput, read_only: bool) -> bool {
    &&& result.stdout@ == text::lossy(output.stdout@)
    &&& result.stderr@ == text::lossy(output.stderr@)
    &&& result.success == output.success
    &&& result.exit_code == output.exit_code
    &&& result.read_only == read_only
}

/// Turns what a process printed into text.
pub fn raw_git_result(output: &ProcessOutput, read_only: bool) -> (r: RawGitResult)
    ensures
        shows(r, *output, read_only),
{
    RawGitResult {
        stdout: text::utf8_lossy(output.stdout.as_slice()),
        stderr: text::utf8_lossy(output.stderr.as_slice()),
        success: output.success,
        exit_code: output.exit_code,
        read_only,
    }
}

/// What follows a Git command: it enters the history either way; the repository is read anew unless
/// the command was stopped.
pub fn finish_git_command(plan: GitCommandPlan, run: Result<ProcessOutput, String>) -> (r: CommandOutcome)
    ensures
        r.recorded == Some(plan.parts),
        match run {
            Ok(output) => {
                &&& r.recorded_success == output.success
                &&& r.refresh
                &&& r.result is Ok
                &&& shows(r.result->Ok_0, output, plan.read_only)
            },
            Err(e) => !r.recorded_success && !r.refresh && r.result == Err::<RawGitResult, String>(e),
        },
{
    match run {
        Ok(output) => {
            let result = raw_git_result(&output, plan.read_only);
            CommandOutcome {
                recorded: Some(plan.parts),
                recorded_success: output.success,
                refresh: true,
                result: Ok(result),
            }
        },
        Err(e) => CommandOutcome {
            recorded: Some(plan.parts),
            recorded_success: false,
            refresh: false,
            result: Err(e),
        },
    }
}

/// A terminal command that is ready to run.
pub struct TerminalPlan {
    /// The command without the white space around it.
    pub command: String,
    pub read_only: bool,
    /// The arguments of the shell.
    pub shell_arguments: Vec<String>,
    /// The Git arguments that enter the command history, when the command is a Git command.
    pub git_arguments: Option<Vec<String>>,
}

/// The Git arguments of a terminal line: what follows the word `git`, if anything does.
pub open spec fn terminal_git_words(command: Seq<char>) -> Option<Seq<Seq<char>>> {
    match words(command) {
        Some(parts) => if parts.len() > 1 && text::same_ignoring_case(parts[0], "git"@) {
            Some(parts.drop_first())
        } else {
            None
        },
        None => None,
    }
}

/// The arguments with which the shell of the platform runs one command.
pub open spec fn shell_words(command: Seq<char>, windows: bool) -> Seq<Seq<char>> {
    if windows {
        seq!["/D"@, "/S"@, "/C"@, command]
    } else {
        seq!["-l"@, "-c"@, command]
    }
}

/// A list of texts that may be missing, by its characters.
pub open spec fn opt_texts_view(list: Option<Vec<String>>) -> Option<Seq<Seq<char>>> {
    match list {
        Some(l) => Some(text::texts_view(l@)),
        None => None,
    }
}

fn terminal_git_arguments(command: &str) -> (r: Option<Vec<String>>)
    ensures
        opt_texts_view(r) == terminal_git_words(command@),
{
    match tokenize_git_args(command) {
        Ok(list) => {
            let mut parts: Vec<String> = list;
            let ghost view = text::texts_view(parts@);
            if parts.len() > 1 {
                assert(view[0] == parts@[0]@);
                if text::eq_ignore_ascii_case(parts[0].as_str(), "git") {
                    let _ = parts.remove(0);
                    assert(text::texts_view(parts@) =~= view.drop_first());
                    return Some(parts);
                }
            }
            None
        },
        Err(_) => None,
    }
}

/// Reads a line of the terminal. Lines that are known to change nothing run without the write lock
/// of the repository.
pub fn plan_terminal_command(command_text: &str, windows: bool) -> (r: Result<TerminalPlan, String>)
    ensures
        match r {
            Ok(plan) => {
                let command = text::trimmed(command_text@);
                &&& command.len() > 0
                &&& plan.command@ == command
                &&& plan.read_only == terminal_reads_only(command)
                &&& text::texts_view(plan.shell_arguments@) == shell_words(command, windows)
                &&& opt_texts_view(plan.git_arguments) == terminal_git_words(command)
            },
            Err(e) => text::trimmed(command_text@).len() == 0 && e@
                == "Type a command, e.g. \"git status\", \"pwd\", or \"gh pr status\""@,
        },
{
    let command: String = text::trim(command_text);
    if command.as_str().is_empty() {
        return Err("Type a command, e.g. \"git status\", \"pwd\", or \"gh pr status\"".to_owned());
    }
    let read_only: bool = is_definitely_read_only_terminal_command(command.as_str());
    let git_arguments: Option<Vec<String>> = terminal_git_arguments(command.as_str());
    let mut shell_arguments: Vec<String> = Vec::new();
    if windows {
        shell_arguments.push("/D".to_owned());
        shell_arguments.push("/S".to_owned());
        shell_arguments.push("/C".to_owned());
    } else {
        shell_arguments.push("-l".to_owned());
        shell_arguments.push("-c".to_owned());
    }
    shell_arguments.push(command.clone());
    assert(text::texts_view(shell_arguments@) =~= shell_words(command@, windows));
    Ok(TerminalPlan { command, read_only, shell_arguments, git_arguments })
}

/// Whether a terminal command has to wait for the write lock of the repository.
pub fn takes_write_lock(plan: &TerminalPlan) -> (r: bool)
    ensures
        r == !plan.read_only,
{
    !plan.read_only
}

/// The repository whose lock a terminal command takes: the root of the working tree, which a command
/// that only reads does not need.
pub fn terminal_root(plan: &TerminalPlan, repository_path: &str, workdir: Option<String>) -> (r: Result<
    String,
    String,
>)
    ensures
        text::result_view(r) == if plan.read_only {
            Ok::<Seq<char>, Seq<char>>(repository_path@)
        } else {
            match workdir {
                Some(root) => Ok(root@),
                None => Err("Bare repositories are not supported by the embedded Terminal"@),
            }
        },
{
    if plan.read_only {
        Ok(repository_path.to_owned())
    } else {
        match workdir {
            Some(root) => Ok(root),
            None => Err("Bare repositories are not supported by the embedded Terminal".to_owned()),
        }
    }
}

/// The shell that runs a terminal command when none is configured.
pub fn fallback_shell(windows: bool) -> (r: String)
    ensures
        r@ == if windows { "cmd.exe"@ } else { "/bin/sh"@ },
{
    if windows {
        "cmd.exe".to_owned()
    } else {
        "/bin/sh".to_owned()
    }
}

/// The variables that keep a terminal command from waiting for input or for a pager.
pub open spec fn unattended_variables() -> Seq<(Seq<char>, Seq<char>)> {
    seq![
        ("GIT_TERMINAL_PROMPT"@, "0"@),
        ("GH_PROMPT_DISABLED"@, "1"@),
        ("GIT_PAGER"@, "cat"@),
        ("PAGER"@, "cat"@),
    ]
}

/// The variables that keep a terminal command from waiting for input or for a pager.
pub fn terminal_environment() -> (r: Vec<(String, String)>)
    ensures
        r@.map_values(|v: (String, String)| (v.0@, v.1@)) == unattended_variables(),
{
    let mut r: Vec<(String, String)> = Vec::new();
    r.push(("GIT_TERMINAL_PROMPT".to_owned(), "0".to_owned()));
    r.push(("GH_PROMPT_DISABLED".to_owned(), "1".to_owned()));
    r.push(("GIT_PAGER".to_owned(), "cat".to_owned()));
    r.push(("PAGER".to_owned(), "cat".to_owned()));
    assert(r@.map_values(|v: (String, String)| (v.0@, v.1@)) =~= unattended_variables());
    r
}

/// What follows a terminal command: a Git command enters the history either way; the repository is
/// read anew unless the command only reads or was stopped.
pub fn finish_terminal_command(plan: TerminalPlan, run: Result<ProcessOutput, String>) -> (r: CommandOutcome)
    ensures
        r.recorded == plan.git_arguments,
        match run {
            Ok(output) => {
                &&& r.recorded_success == output.success
                &&& r.refresh == !plan.read_only
                &&& r.result is Ok
                &&& shows(r.result->Ok_0, output, plan.read_only)
            },
            Err(e) => !r.recorded_success && !r.refresh && r.result == Err::<RawGitResult, String>(e),
        },
{
    match run {
        Ok(output) => {
            let result = raw_git_result(&output, plan.read_only);
            CommandOutcome {
                recorded: plan.git_arguments,
                recorded_success: output.success,
                refresh: !plan.read_only,
                result: Ok(result),
            }
        },
        Err(e) => CommandOutcome {
            recorded: plan.git_arguments,
            recorded_success: false,
            refresh: false,
            result: Err(e),
        },
    }
}

// What the splitting of a line does to lines of a given shape.

/// Whether a text holds neither white space nor a quote.
pub open spec fn is_plain(word: Seq<char>) -> bool {
    forall|i: int|
        0 <= i < word.len() ==> !text::is_white_space(#[trigger] word[i]) && word[i] != '"' && word[i] != '\''
}

/// Plain characters lengthen the word in which they stand.
proof fn lemma_words_of_plain(word: Seq<char>, rest: Seq<char>, begun: Option<Seq<char>>)
    requires
        is_plain(word),
        word.len() > 0,
    ensures
        words_from(word + rest, begun) == words_from(
            rest,
            Some(
                match begun {
                    Some(w) => w + word,
                    None => word,
                },
            ),
        ),
    decreases word.len(),
{
    let input = word + rest;
    let before = match begun {
        Some(w) => w,
        None => Seq::<char>::empty(),
    };
    let tail = word.skip(1);
    assert(input[0] == word[0]);
    assert(input.skip(1) =~= tail + rest);
    assert forall|i: int| 0 <= i < tail.len() implies !text::is_white_space(#[trigger] tail[i]) && tail[i] != '"'
        && tail[i] != '\'' by {
        assert(tail[i] == word[i + 1]);
    }
    if tail.len() > 0 {
        lemma_words_of_plain(tail, rest, Some(before.push(word[0])));
        assert(before.push(word[0]) + tail =~= before + word);
    } else {
        assert(tail + rest =~= rest);
        assert(before.push(word[0]) =~= before + word);
    }
    assert(Seq::<char>::empty() + word =~= word);
}

/// White space where no word has begun counts for nothing.
proof fn lemma_words_of_blank(gap: Seq<char>, rest: Seq<char>)
    requires
        text::is_blank(gap),
    ensures
        words_from(gap + rest, None) == words_from(rest, None),
    decreases gap.len(),
{
    let input = gap + rest;
    if gap.len() == 0 {
        assert(input =~= rest);
    } else {
        let less = gap.skip(1);
        assert forall|i: int| 0 <= i < less.len() implies text::is_white_space(#[trigger] less[i]) by {
            assert(less[i] == gap[i + 1]);
        }
        assert(input.skip(1) =~= less + rest);
        assert(text::is_white_space(gap[0]));
        assert(input[0] == gap[0]);
        lemma_words_of_blank(less, rest);
    }
}

/// White space ends the word that has begun.
proof fn lemma_words_of_gap(gap: Seq<char>, rest: Seq<char>, word: Seq<char>)
    requires
        text::is_blank(gap),
        gap.len() > 0,
    ensures
        words_from(gap + rest, Some(word)) == match words_from(rest, None) {
            Some(more) => Some(seq![word] + more),
            None => None,
        },
{
    let input = gap + rest;
    let less = gap.skip(1);
    assert forall|i: int| 0 <= i < less.len() implies text::is_white_space(#[trigger] less[i]) by {
        assert(less[i] == gap[i + 1]);
    }
    assert(input.skip(1) =~= less + rest);
    assert(text::is_white_space(gap[0]));
    assert(input[0] == gap[0]);
    lemma_words_of_blank(less, rest);
}

/// The text of a quotation up to its closing quote, where nothing in it could be read otherwise.
proof fn lemma_quoted_of_body(body: Seq<char>, rest: Seq<char>, q: char)
    requires
        forall|i: int| 0 <= i < body.len() ==> #[trigger] body[i] != q && (q == '"' ==> body[i] != '\\'),
    ensures
        quoted(body + seq![q] + rest, q) == Some((body, rest)),
    decreases body.len(),
{
    let input = body + seq![q] + rest;
    if body.len() == 0 {
        assert(input[0] == q);
        assert(input.skip(1) =~= rest);
        assert(body =~= Seq::empty());
        assert(q == '"' ==> input[0] != '\\');
    } else {
        let less = body.skip(1);
        assert forall|i: int| 0 <= i < less.len() implies #[trigger] less[i] != q && (q == '"' ==> less[i] != '\\') by {
            assert(less[i] == body[i + 1]);
        }
        lemma_quoted_of_body(less, rest, q);
        assert(input.skip(1) =~= less + seq![q] + rest);
        assert(input[0] == body[0]);
        assert(seq![body[0]] + less =~= body);
    }
}

/// A quotation without its closing quote has no end.
proof fn lemma_quoted_of_open_body(body: Seq<char>, q: char)
    requires
        forall|i: int| 0 <= i < body.len() ==> #[trigger] body[i] != q && (q == '"' ==> body[i] != '\\'),
    ensures
        quoted(body, q) is None,
    decreases body.len(),
{
    if body.len() > 0 {
        let less = body.skip(1);
        assert forall|i: int| 0 <= i < less.len() implies #[trigger] less[i] != q && (q == '"' ==> less[i] != '\\') by {
            assert(less[i] == body[i + 1]);
        }
        assert(body[0] != q);
        lemma_quoted_of_open_body(less, q);
    }
}

/// The words of a line of plain words, with white space before, between and after them.
pub proof fn lemma_words_of_spaced(lead: Seq<char>, list: Seq<Seq<char>>, gap: Seq<char>, tail: Seq<char>)
    requires
        text::is_blank(lead),
        text::is_blank(gap),
        gap.len() > 0,
        text::is_blank(tail),
        forall|i: int| 0 <= i < list.len() ==> is_plain(#[trigger] list[i]) && list[i].len() > 0,
    ensures
        words(lead + pieces::joined(list, gap) + tail) == Some(list),
    decreases list.len(),
{
    let line = pieces::joined(list, gap) + tail;
    assert(lead + pieces::joined(list, gap) + tail =~= lead + line);
    lemma_words_of_blank(lead, line);
    lemma_words_of_joined(list, gap, tail);
}

proof fn lemma_words_of_joined(list: Seq<Seq<char>>, gap: Seq<char>, tail: Seq<char>)
    requires
        text::is_blank(gap),
        gap.len() > 0,
        text::is_blank(tail),
        forall|i: int| 0 <= i < list.len() ==> is_plain(#[trigger] list[i]) && list[i].len() > 0,
    ensures
        words_from(pieces::joined(list, gap) + tail, None) == Some(list),
    decreases list.len(),
{
    let nothing = Seq::<char>::empty();
    assert(tail + nothing =~= tail);
    if list.len() == 0 {
        assert(nothing + tail =~= tail);
        lemma_words_of_blank(tail, nothing);
        assert(list =~= Seq::<Seq<char>>::empty());
        assert(pieces::joined(list, gap) =~= nothing);
    } else if list.len() == 1 {
        assert(pieces::joined(list, gap) == list[0]);
        lemma_words_of_plain(list[0], tail, None);
        if tail.len() == 0 {
            assert(tail =~= nothing);
        } else {
            lemma_words_of_gap(tail, nothing, list[0]);
            assert(seq![list[0]] + Seq::<Seq<char>>::empty() =~= list);
        }
        assert(seq![list[0]] =~= list);
    } else {
        let first = list[0];
        let rest = list.drop_first();
        assert forall|i: int| 0 <= i < rest.len() implies is_plain(#[trigger] rest[i]) && rest[i].len() > 0 by {
            assert(rest[i] == list[i + 1]);
        }
        lemma_words_of_joined(rest, gap, tail);
        let more = pieces::joined(rest, gap) + tail;
        pieces::lemma_joined_first(list, gap);
        assert(pieces::joined(list, gap) + tail =~= first + (gap + more));
        lemma_words_of_plain(first, gap + more, None);
        lemma_words_of_gap(gap, more, first);
        assert(seq![first] + rest =~= list);
    }
}

/// Splitting a line reads back the words of which it was made: words of characters that are neither white space
/// nor quotes, with white space before, between and after them. One space between two words is such a line.
pub proof fn law_plain_words_are_read_back(
    line: &str,
    r: Result<Vec<String>, String>,
    lead: Seq<char>,
    list: Seq<Seq<char>>,
    gap: Seq<char>,
    tail: Seq<char>,
)
    requires
        call_ensures(tokenize_git_args, (line,), r),
        line@ == lead + pieces::joined(list, gap) + tail,
        text::is_blank(lead),
        text::is_blank(gap),
        gap.len() > 0,
        text::is_blank(tail),
        forall|i: int| 0 <= i < list.len() ==> is_plain(#[trigger] list[i]) && list[i].len() > 0,
    ensures
        r matches Ok(tokens) && text::texts_view(tokens@) == list,
{
    lemma_words_of_spaced(lead, list, gap, tail);
}

/// A space between two plain words is a line that splits into the two.
pub proof fn law_one_space_parts_two_words(line: &str, r: Result<Vec<String>, String>, a: Seq<char>, b: Seq<char>)
    requires
        call_ensures(tokenize_git_args, (line,), r),
        line@ == a + seq![' '] + b,
        is_plain(a),
        a.len() > 0,
        is_plain(b),
        b.len() > 0,
    ensures
        r matches Ok(tokens) && tokens@.len() == 2 && tokens@[0]@ == a && tokens@[1]@ == b,
{
    let nothing = Seq::<char>::empty();
    let list = seq![a, b];
    pieces::lemma_joined_first(list, seq![' ']);
    assert(list.drop_first() =~= seq![b]);
    assert(pieces::joined(seq![b], seq![' ']) == b);
    assert(line@ =~= nothing + pieces::joined(list, seq![' ']) + nothing);
    lemma_words_of_spaced(nothing, list, seq![' '], nothing);
    assert(list[0] == a && list[1] == b);
    if let Ok(tokens) = r {
        assert(text::texts_view(tokens@).len() == 2);
        assert(text::texts_view(tokens@)[0] == tokens@[0]@);
        assert(text::texts_view(tokens@)[1] == tokens@[1]@);
    }
}

/// A quotation is part of the word in which it stands, without its quotes: white space in it does not end the word,
/// the other quote means nothing in it, and between single quotes neither does a backslash.
pub proof fn law_quoted_text_is_part_of_its_word(
    line: &str,
    r: Result<Vec<String>, String>,
    a: Seq<char>,
    q: char,
    body: Seq<char>,
    b: Seq<char>,
)
    requires
        call_ensures(tokenize_git_args, (line,), r),
        q == '"' || q == '\'',
        line@ == a + seq![q] + body + seq![q] + b,
        is_plain(a),
        is_plain(b),
        forall|i: int| 0 <= i < body.len() ==> #[trigger] body[i] != q && (q == '"' ==> body[i] != '\\'),
    ensures
        r matches Ok(tokens) && tokens@.len() == 1 && tokens@[0]@ == a + body + b,
{
    let tail = body + seq![q] + b;
    let input = seq![q] + tail;
    assert(line@ =~= a + input);
    let begun = if a.len() > 0 {
        Some(a)
    } else {
        None
    };
    if a.len() > 0 {
        lemma_words_of_plain(a, input, None);
    } else {
        assert(a + input =~= input);
        assert(a =~= Seq::empty());
    }
    assert(input[0] == q);
    assert(input.skip(1) =~= tail);
    lemma_quoted_of_body(body, b, q);
    assert(words(line@) == words_from(b, Some(a + body)));
    if b.len() > 0 {
        lemma_words_of_plain(b, Seq::empty(), Some(a + body));
        assert(b + Seq::<char>::empty() =~= b);
    } else {
        assert(a + body + b =~= a + body);
    }
    let one = seq![a + body + b];
    assert(words(line@) == Some(one));
    if let Ok(tokens) = r {
        assert(one.len() == 1 && one[0] == a + body + b);
        assert(text::texts_view(tokens@) == one);
        assert(text::texts_view(tokens@)[0] == tokens@[0]@);
    }
}

/// Between double quotes a backslash stands for itself unless a double quote or a backslash follows it.
pub proof fn law_other_backslashes_are_kept(
    line: &str,
    r: Result<Vec<String>, String>,
    a: Seq<char>,
    c: char,
    b: Seq<char>,
)
    requires
        call_ensures(tokenize_git_args, (line,), r),
        line@ == seq!['"'] + a + seq!['\\', c] + b + seq!['"'],
        c != '"',
        c != '\\',
        forall|i: int| 0 <= i < a.len() ==> #[trigger] a[i] != '"' && a[i] != '\\',
        forall|i: int| 0 <= i < b.len() ==> #[trigger] b[i] != '"' && b[i] != '\\',
    ensures
        r matches Ok(tokens) && tokens@.len() == 1 && tokens@[0]@ == a + seq!['\\', c] + b,
{
    let input = line@;
    let nothing = Seq::<char>::empty();
    let after = seq!['\\', c] + b + seq!['"'];
    assert(input.skip(1) =~= a + after);
    assert(b + seq!['"'] + nothing =~= b + seq!['"']);
    lemma_quoted_of_body(b, nothing, '"');
    assert(after.skip(1) =~= seq![c] + (b + seq!['"']));
    assert(after.skip(1).skip(1) =~= b + seq!['"']);
    assert(quoted(after.skip(1), '"') == Some((seq![c] + b, nothing)));
    assert(seq!['\\'] + (seq![c] + b) =~= seq!['\\', c] + b);
    assert(after[0] == '\\' && after[1] == c);
    assert(quoted(after, '"') == Some((seq!['\\', c] + b, nothing)));
    lemma_quoted_of_clean_start(a, after, '"');
    let body = a + (seq!['\\', c] + b);
    assert(body =~= a + seq!['\\', c] + b);
    assert(input[0] == '"');
    assert(nothing + body =~= body);
    assert(words_from(nothing, Some(body)) == Some(seq![body]));
    assert(words(input) == words_from(nothing, Some(body)));
    if let Ok(tokens) = r {
        assert(seq![body].len() == 1 && seq![body][0] == body);
        assert(text::texts_view(tokens@)[0] == tokens@[0]@);
    }
}

/// Characters that mean nothing special begin the text of the quotation.
proof fn lemma_quoted_of_clean_start(start: Seq<char>, rest: Seq<char>, q: char)
    requires
        forall|i: int| 0 <= i < start.len() ==> #[trigger] start[i] != q && (q == '"' ==> start[i] != '\\'),
    ensures
        quoted(start + rest, q) == match quoted(rest, q) {
            Some((body, after)) => Some((start + body, after)),
            None => None,
        },
    decreases start.len(),
{
    let input = start + rest;
    if start.len() == 0 {
        assert(input =~= rest);
        if let Some((body, after)) = quoted(rest, q) {
            assert(start + body =~= body);
        }
    } else {
        let less = start.skip(1);
        assert forall|i: int| 0 <= i < less.len() implies #[trigger] less[i] != q && (q == '"' ==> less[i] != '\\') by {
            assert(less[i] == start[i + 1]);
        }
        lemma_quoted_of_clean_start(less, rest, q);
        assert(input.skip(1) =~= less + rest);
        assert(input[0] == start[0]);
        if let Some((body, after)) = quoted(rest, q) {
            assert(seq![start[0]] + (less + body) =~= start + body);
        }
    }
}

/// A quotation that is opened after plain text and never closed is refused, with this message.
pub proof fn law_open_quotation_is_refused(
    line: &str,
    r: Result<Vec<String>, String>,
    a: Seq<char>,
    q: char,
    body: Seq<char>,
)
    requires
        call_ensures(tokenize_git_args, (line,), r),
        q == '"' || q == '\'',
        line@ == a + seq![q] + body,
        is_plain(a),
        forall|i: int| 0 <= i < body.len() ==> #[trigger] body[i] != q && (q == '"' ==> body[i] != '\\'),
    ensures
        r matches Err(e) && e@ == "Unclosed quote in command"@,
{
    let input = seq![q] + body;
    assert(line@ =~= a + input);
    if a.len() > 0 {
        lemma_words_of_plain(a, input, None);
    } else {
        assert(a + input =~= input);
    }
    assert(input[0] == q);
    assert(input.skip(1) =~= body);
    lemma_quoted_of_open_body(body, q);
}

// What is made of a line.

/// The subcommands of Git that are known to change nothing are these six, in lower case.
pub proof fn law_six_subcommands_only_read(subcommand: &str, r: bool)
    requires
        call_ensures(is_read_only_git_subcommand, (subcommand,), r),
    ensures
        r <==> subcommand@ == "status"@ || subcommand@ == "log"@ || subcommand@ == "diff"@ || subcommand@ == "show"@
            || subcommand@ == "blame"@ || subcommand@ == "ls-files"@,
{
}

/// A line of the Git box runs Git in the repository, without colours, with the words of the line as they were split,
/// less the word `git` at the start.
pub proof fn law_git_lines_are_run_as_they_were_split(
    repository_path: &str,
    line: &str,
    split: Result<Vec<String>, String>,
    planned: Result<GitCommandPlan, String>,
)
    requires
        call_ensures(tokenize_git_args, (line,), split),
        call_ensures(plan_git_command, (repository_path, line), planned),
    ensures
        split is Err ==> (planned matches Err(e) && e@ == split->Err_0@),
        split matches Ok(list) ==> {
            let skipped: int = if list@.len() > 0 && list@[0]@ == "git"@ {
                1
            } else {
                0
            };
            &&& list@.len() == skipped ==> (planned matches Err(e) && e@
                == "Type a git subcommand, e.g. \"status\" or \"log --oneline -10\""@)
            &&& list@.len() > skipped ==> planned is Ok
            &&& planned matches Ok(plan) ==> {
                &&& plan.parts@.len() == list@.len() - skipped
                &&& plan.arguments@.len() == plan.parts@.len() + 4
                &&& plan.arguments@[0]@ == "-C"@
                &&& plan.arguments@[1]@ == repository_path@
                &&& plan.arguments@[2]@ == "-c"@
                &&& plan.arguments@[3]@ == "color.ui=false"@
                &&& forall|i: int|
                    0 <= i < plan.parts@.len() ==> (#[trigger] plan.parts@[i])@ == list@[i + skipped]@
                        && plan.arguments@[i + 4]@ == plan.parts@[i]@
                &&& plan.read_only <==> plan.parts@[0]@ == "status"@ || plan.parts@[0]@ == "log"@ || plan.parts@[0]@
                    == "diff"@ || plan.parts@[0]@ == "show"@ || plan.parts@[0]@ == "blame"@ || plan.parts@[0]@
                    == "ls-files"@
            }
        },
{
    if let Ok(list) = split {
        let view = text::texts_view(list@);
        assert(list@.len() == view.len());
        if list@.len() > 0 {
            assert(view[0] == list@[0]@);
        }
        if let Ok(plan) = planned {
            let parts = text::texts_view(plan.parts@);
            let arguments = text::texts_view(plan.arguments@);
            assert(parts == git_words(view));
            assert(arguments == git_arguments(repository_path@, parts));
            assert(plan.parts@.len() == parts.len());
            assert(plan.arguments@.len() == arguments.len());
            assert(parts[0] == plan.parts@[0]@);
            assert(arguments[0] == plan.arguments@[0]@);
            assert(arguments[1] == plan.arguments@[1]@);
            assert(arguments[2] == plan.arguments@[2]@);
            assert(arguments[3] == plan.arguments@[3]@);
            let skipped: int = if list@.len() > 0 && list@[0]@ == "git"@ {
                1
            } else {
                0
            };
            assert forall|i: int| 0 <= i < plan.parts@.len() implies (#[trigger] plan.parts@[i])@ == list@[i
                + skipped]@ && plan.arguments@[i + 4]@ == plan.parts@[i]@ by {
                assert(parts[i] == plan.parts@[i]@);
                assert(view[i + skipped] == list@[i + skipped]@);
                assert(parts[i] == view[i + skipped]);
                assert(arguments[i + 4] == plan.arguments@[i + 4]@);
                assert(arguments[i + 4] == parts[i]);
            }
        }
    }
}

/// A terminal line counts as only reading exactly when a shell would run it as one plain command, and that command is
/// one of the six reading subcommands of Git or one of seven programs, in upper or lower case.
pub proof fn law_terminal_lines_that_only_read(line: &str, split: Result<Vec<String>, String>, r: bool)
    requires
        call_ensures(tokenize_git_args, (line,), split),
        call_ensures(is_definitely_read_only_terminal_command, (line,), r),
    ensures
        r <==> {
            &&& forall|i: int|
                0 <= i < line@.len() ==> #[trigger] line@[i] != ';' && line@[i] != '|' && line@[i] != '&' && line@[i]
                    != '>' && line@[i] != '<' && line@[i] != '`' && line@[i] != '\n' && line@[i] != '\r'
            &&& forall|i: int, j: int|
                0 <= i && j == i + 1 && j < line@.len() ==> !(#[trigger] line@[i] == '$' && #[trigger] line@[j] == '(')
            &&& split matches Ok(list)
            &&& list@.len() > 0
            &&& {
                let first = text::ascii_lowered(list@[0]@);
                let second = text::ascii_lowered(list@[1]@);
                ||| first == "git"@ && list@.len() > 1 && (second == "status"@ || second == "log"@ || second == "diff"@
                    || second == "show"@ || second == "blame"@ || second == "ls-files"@)
                ||| first == "pwd"@ || first == "ls"@ || first == "dir"@ || first == "whoami"@ || first == "hostname"@
                    || first == "which"@ || first == "where"@
            }
        },
{
    reveal_strlit("git");
    reveal_strlit("pwd");
    reveal_strlit("ls");
    reveal_strlit("dir");
    reveal_strlit("whoami");
    reveal_strlit("hostname");
    reveal_strlit("which");
    reveal_strlit("where");
    assert("git"@[0] == 'g' && "pwd"@[0] == 'p' && "dir"@[0] == 'd');
    let clear = forall|i: int|
        0 <= i < line@.len() ==> #[trigger] line@[i] != ';' && line@[i] != '|' && line@[i] != '&' && line@[i] != '>'
            && line@[i] != '<' && line@[i] != '`' && line@[i] != '\n' && line@[i] != '\r';
    let plain = forall|i: int, j: int|
        0 <= i && j == i + 1 && j < line@.len() ==> !(#[trigger] line@[i] == '$' && #[trigger] line@[j] == '(');
    assert(clear && plain ==> !uses_shell(line@)) by {
        if clear && plain && uses_shell(line@) {
            if exists|i: int| 0 <= i < line@.len() && is_shell_operator(#[trigger] line@[i]) {
                let i = choose|i: int| 0 <= i < line@.len() && is_shell_operator(#[trigger] line@[i]);
                assert(line@[i] != ';');
            } else {
                let i = choose|i: int| 0 <= i < line@.len() - 1 && #[trigger] line@[i] == '$' && line@[i + 1] == '(';
                let j = i + 1;
                assert(line@[i] == '$' && line@[j] == '(');
            }
        }
    }
    if !uses_shell(line@) {
        assert forall|i: int| 0 <= i < line@.len() implies #[trigger] line@[i] != ';' && line@[i] != '|' && line@[i]
            != '&' && line@[i] != '>' && line@[i] != '<' && line@[i] != '`' && line@[i] != '\n' && line@[i] != '\r' by {
            assert(!is_shell_operator(line@[i]));
        }
        assert forall|i: int, j: int| 0 <= i && j == i + 1 && j < line@.len() implies !(#[trigger] line@[i] == '$'
            && #[trigger] line@[j] == '(') by {
            if line@[i] == '$' && line@[j] == '(' {
                assert(line@[i] == '$' && line@[i + 1] == '(');
            }
        }
    }
    if let Ok(list) = split {
        let view = text::texts_view(list@);
        assert(view.len() == list@.len());
        if list@.len() > 0 {
            assert(view[0] == list@[0]@);
        }
        if list@.len() > 1 {
            assert(view[1] == list@[1]@);
        }
    }
}

/// The shell is handed the whole command as one argument, exactly as it was typed between the white space around it.
/// What is typed behind the word `git` enters the history.
pub proof fn law_terminal_commands_reach_the_shell_whole(
    typed: &str,
    windows: bool,
    lead: Seq<char>,
    command: &str,
    tail: Seq<char>,
    split: Result<Vec<String>, String>,
    reads: bool,
    r: Result<TerminalPlan, String>,
    locks: bool,
)
    requires
        typed@ == lead + command@ + tail,
        text::is_blank(lead),
        text::is_tight(command@),
        text::is_blank(tail),
        call_ensures(tokenize_git_args, (command,), split),
        call_ensures(is_definitely_read_only_terminal_command, (command,), reads),
        call_ensures(plan_terminal_command, (typed, windows), r),
    ensures
        r matches Ok(plan) && {
            &&& plan.command@ == command@
            &&& windows ==> plan.shell_arguments@.len() == 4 && plan.shell_arguments@[0]@ == "/D"@
                && plan.shell_arguments@[1]@ == "/S"@ && plan.shell_arguments@[2]@ == "/C"@
                && plan.shell_arguments@[3]@ == command@
            &&& !windows ==> plan.shell_arguments@.len() == 3 && plan.shell_arguments@[0]@ == "-l"@
                && plan.shell_arguments@[1]@ == "-c"@ && plan.shell_arguments@[2]@ == command@
            &&& plan.read_only == reads
            &&& call_ensures(takes_write_lock, (&plan,), locks) ==> locks == !reads
            &&& plan.git_arguments is Some <==> split is Ok && (split->Ok_0)@.len() > 1 && text::ascii_lowered(
                (split->Ok_0)@[0]@,
            ) == "git"@
            &&& plan.git_arguments matches Some(list) ==> list@.len() == (split->Ok_0)@.len() - 1 && forall|i: int|
                0 <= i < list@.len() ==> (#[trigger] list@[i])@ == (split->Ok_0)@[i + 1]@
        },
{
    text::lemma_trimmed_of_padded(lead, command@, tail);
    assert(text::ascii_lowered("git"@) == "git"@) by {
        reveal_strlit("git");
        assert(text::ascii_lowered("git"@) =~= "git"@);
    }
    if let Ok(plan) = r {
        let shell = text::texts_view(plan.shell_arguments@);
        assert(shell.len() == plan.shell_arguments@.len());
        assert(shell[0] == plan.shell_arguments@[0]@);
        assert(shell[1] == plan.shell_arguments@[1]@);
        assert(shell[2] == plan.shell_arguments@[2]@);
        if windows {
            assert(shell[3] == plan.shell_arguments@[3]@);
        }
        if let Ok(list) = split {
            let view = text::texts_view(list@);
            assert(view.len() == list@.len());
            if list@.len() > 0 {
                assert(view[0] == list@[0]@);
            }
            if let Some(git) = plan.git_arguments {
                let kept = text::texts_view(git@);
                assert(kept == view.drop_first());
                assert(kept.len() == git@.len());
                assert forall|i: int| 0 <= i < git@.len() implies (#[trigger] git@[i])@ == list@[i + 1]@ by {
                    assert(kept[i] == git@[i]@);
                    assert(view[i + 1] == list@[i + 1]@);
                }
            }
        }
    }
}

/// A blank terminal line is refused.
pub proof fn law_blank_terminal_lines_are_refused(typed: &str, windows: bool, r: Result<TerminalPlan, String>)
    requires
        text::is_blank(typed@),
        call_ensures(plan_terminal_command, (typed, windows), r),
    ensures
        r matches Err(e) && e@ == "Type a command, e.g. \"git status\", \"pwd\", or \"gh pr status\""@,
{
    text::lemma_trimmed_of_blank(typed@);
}

/// A command that ended is answered with what it printed on each of its two outputs and with how it ended. What is
/// known of the repository is read anew after every Git command that ran and after every terminal command that ran and
/// is not known to only read; a command that was stopped is answered with the reason and changes nothing.
pub proof fn law_commands_are_answered_with_what_they_did(
    plan: GitCommandPlan,
    terminal: TerminalPlan,
    output: ProcessOutput,
    reason: String,
    ran: CommandOutcome,
    stopped: CommandOutcome,
    ran_there: CommandOutcome,
    stopped_there: CommandOutcome,
)
    requires
        call_ensures(finish_git_command, (plan, Ok(output)), ran),
        call_ensures(finish_git_command, (plan, Err(reason)), stopped),
        call_ensures(finish_terminal_command, (terminal, Ok(output)), ran_there),
        call_ensures(finish_terminal_command, (terminal, Err(reason)), stopped_there),
    ensures
        ran.refresh && ran.recorded == Some(plan.parts) && ran.recorded_success == output.success,
        ran.result matches Ok(shown) && shown.stdout@ == text::lossy(output.stdout@) && shown.stderr@ == text::lossy(
            output.stderr@,
        ) && shown.success == output.success && shown.exit_code == output.exit_code && shown.read_only == plan.read_only,
        !stopped.refresh && stopped.recorded == Some(plan.parts) && !stopped.recorded_success,
        stopped.result matches Err(e) && e@ == reason@,
        ran_there.refresh == !terminal.read_only && ran_there.recorded == terminal.git_arguments
            && ran_there.recorded_success == output.success,
        ran_there.result matches Ok(shown) && shown.stdout@ == text::lossy(output.stdout@) && shown.stderr@
            == text::lossy(output.stderr@) && shown.success == output.success && shown.exit_code == output.exit_code
            && shown.read_only == terminal.read_only,
        !stopped_there.refresh && stopped_there.recorded == terminal.git_arguments && !stopped_there.recorded_success,
        stopped_there.result matches Err(e) && e@ == reason@,
{
}

/// A terminal command runs unattended: Git and its helper ask nothing, and nothing waits in a pager.
pub proof fn law_terminal_commands_run_unattended(r: Vec<(String, String)>, windows: bool, shell: String)
    requires
        call_ensures(terminal_environment, (), r),
        call_ensures(fallback_shell, (windows,), shell),
    ensures
        r@.len() == 4,
        r@[0].0@ == "GIT_TERMINAL_PROMPT"@ && r@[0].1@ == "0"@,
        r@[1].0@ == "GH_PROMPT_DISABLED"@ && r@[1].1@ == "1"@,
        r@[2].0@ == "GIT_PAGER"@ && r@[2].1@ == "cat"@,
        r@[3].0@ == "PAGER"@ && r@[3].1@ == "cat"@,
        windows ==> shell@ == "cmd.exe"@,
        !windows ==> shell@ == "/bin/sh"@,
{
    let view = r@.map_values(|v: (String, String)| (v.0@, v.1@));
    assert(view.len() == r@.len());
    assert(view[0] == (r@[0].0@, r@[0].1@));
    assert(view[1] == (r@[1].0@, r@[1].1@));
    assert(view[2] == (r@[2].0@, r@[2].1@));
    assert(view[3] == (r@[3].0@, r@[3].1@));
}

/// A terminal command that may write takes the lock of the whole working tree, which a bare repository has not; one that
/// only reads stays where it is.
pub proof fn law_writing_commands_lock_the_working_tree(
    plan: &TerminalPlan,
    repository_path: &str,
    workdir: Option<String>,
    r: Result<String, String>,
)
    requires
        call_ensures(terminal_root, (plan, repository_path, workdir), r),
    ensures
        plan.read_only ==> (r matches Ok(root) && root@ == repository_path@),
        !plan.read_only && workdir is Some ==> (r matches Ok(root) && root@ == workdir->0@),
        !plan.read_only && workdir is None ==> (r matches Err(e) && e@
            == "Bare repositories are not supported by the embedded Terminal"@),
{
}

} // verus!
