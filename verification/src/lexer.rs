//! Tokenizer for the shell input line.
//!
//! - A line splits into commands on unquoted `;`; empty commands are dropped.
//! - A command splits into arguments on unquoted spaces and tabs.
//! - Single quotes keep their text literally; double quotes honour `\"`, `\\`,
//!   `\$` and variable expansion; a backslash outside quotes makes the next
//!   character literal.
//! - `$NAME` and `${NAME}` expand outside single quotes; an unknown variable
//!   expands to nothing and a lone `$` stays literal.
//!
//! The environment is handed in as a list of name/value pairs; a name stands
//! for the value of the first pair that carries it.
use vstd::prelude::*;
use crate::text::{chars_of, push_char, find_char, lemma_find_char_bounds, lemma_find_char_skips, lemma_find_char_shift};

verus! {

/// A lexing error: a quote that is opened and never closed.
#[derive(Debug, PartialEq, Eq, Structural, Clone, Copy)]
pub enum LexError {
    UnterminatedQuote(char),
}

impl LexError {
    /// The message the shell prints for this error.
    pub fn message(&self) -> (res: String)
        ensures
            res@ == message_text(*self),
    {
        match self {
            LexError::UnterminatedQuote(q) => {
                let mut s = String::from_str("syntax error: unterminated quote ");
                push_char(&mut s, *q);
                s
            },
        }
    }
}

/// The text of the message for a lexing error.
pub open spec fn message_text(e: LexError) -> Seq<char> {
    match e {
        LexError::UnterminatedQuote(q) => "syntax error: unterminated quote "@.push(q),
    }
}

// ---------------------------------------------------------------------------
// The meaning of a line
// ---------------------------------------------------------------------------

/// The value a name has in the environment, or nothing when it is unset.
pub open spec fn env_lookup(env: Seq<(String, String)>, name: Seq<char>) -> Seq<char>
    decreases env.len(),
{
    if env.len() == 0 {
        Seq::empty()
    } else if env[0].0@ == name {
        env[0].1@
    } else {
        env_lookup(env.drop_first(), name)
    }
}

/// Characters that may make up a bare `$NAME`.
pub open spec fn is_name_char(c: char) -> bool {
    ||| ('a' <= c && c <= 'z')
    ||| ('A' <= c && c <= 'Z')
    ||| ('0' <= c && c <= '9')
    ||| c == '_'
}

/// The end of the run of name characters that starts at `i`.
pub open spec fn bare_name_end(s: Seq<char>, i: int) -> int
    decreases s.len() - i,
{
    if 0 <= i < s.len() && is_name_char(s[i]) {
        bare_name_end(s, i + 1)
    } else {
        i
    }
}

/// The text a variable reference expands to, and where reading resumes;
/// `i` is the position just after the `$`.
pub open spec fn expansion(s: Seq<char>, i: int, env: Seq<(String, String)>) -> (Seq<char>, int) {
    if 0 <= i < s.len() && s[i] == '{' {
        let close = find_char(s, i + 1, '}');
        (env_lookup(env, s.subrange(i + 1, close)), if close < s.len() { close + 1 } else { close })
    } else {
        let end = bare_name_end(s, i);
        if end == i {
            (seq!['$'], i)
        } else {
            (env_lookup(env, s.subrange(i, end)), end)
        }
    }
}

/// Inside double quotes from position `i`, with `acc` read so far: the whole
/// text of the quoted part and the position after the closing quote, or
/// `None` when the quote is never closed.
pub open spec fn double_quoted(s: Seq<char>, i: int, env: Seq<(String, String)>, acc: Seq<char>) -> Option<(Seq<char>, int)>
    decreases s.len() - i,
{
    if i < 0 || i >= s.len() {
        None
    } else if s[i] == '"' {
        Some((acc, i + 1))
    } else if s[i] == '\\' {
        if i + 1 >= s.len() {
            None
        } else {
            let n = s[i + 1];
            let piece = if n == '"' || n == '\\' || n == '$' { seq![n] } else { seq!['\\', n] };
            double_quoted(s, i + 2, env, acc + piece)
        }
    } else if s[i] == '$' {
        let (t, j) = expansion(s, i + 1, env);
        proof {
            lemma_expansion_advances(s, i + 1, env);
        }
        double_quoted(s, j, env, acc + t)
    } else {
        double_quoted(s, i + 1, env, acc.push(s[i]))
    }
}

/// What the tokenizer has built so far.
pub struct LexState {
    pub cmds: Seq<Seq<Seq<char>>>,
    pub cur: Seq<Seq<char>>,
    pub arg: Seq<char>,
    pub has: bool,
}

/// Ends the argument being built, if it has been started.
pub open spec fn flush_arg(st: LexState) -> LexState {
    if st.has {
        LexState { cmds: st.cmds, cur: st.cur.push(st.arg), arg: Seq::empty(), has: false }
    } else {
        st
    }
}

/// Ends the command being built; an empty command is dropped.
pub open spec fn end_command(st: LexState) -> LexState {
    let f = flush_arg(st);
    if f.cur.len() > 0 {
        LexState { cmds: f.cmds.push(f.cur), cur: Seq::empty(), arg: f.arg, has: f.has }
    } else {
        f
    }
}

/// Adds text to the argument being built and marks it started.
pub open spec fn with_text(st: LexState, t: Seq<char>) -> LexState {
    LexState { cmds: st.cmds, cur: st.cur, arg: st.arg + t, has: true }
}

/// The result of reading `s` from position `i` in state `st`.
pub open spec fn lex_from(s: Seq<char>, i: int, env: Seq<(String, String)>, st: LexState) -> Result<Seq<Seq<Seq<char>>>, LexError>
    decreases s.len() - i,
{
    if i < 0 || i >= s.len() {
        Ok(end_command(st).cmds)
    } else {
        let c = s[i];
        if c == ' ' || c == '\t' {
            lex_from(s, i + 1, env, flush_arg(st))
        } else if c == ';' {
            lex_from(s, i + 1, env, end_command(st))
        } else if c == '\'' {
            let close = find_char(s, i + 1, '\'');
            if close >= s.len() {
                Err(LexError::UnterminatedQuote('\''))
            } else {
                proof {
                    lemma_find_char_bounds(s, i + 1, '\'');
                }
                lex_from(s, close + 1, env, with_text(st, s.subrange(i + 1, close)))
            }
        } else if c == '"' {
            match double_quoted(s, i + 1, env, Seq::empty()) {
                None => Err(LexError::UnterminatedQuote('"')),
                Some((t, j)) => {
                    proof {
                        lemma_double_quoted_advances(s, i + 1, env, Seq::empty());
                    }
                    lex_from(s, j, env, with_text(st, t))
                },
            }
        } else if c == '\\' {
            if i + 1 < s.len() {
                lex_from(s, i + 2, env, with_text(st, seq![s[i + 1]]))
            } else {
                lex_from(s, i + 1, env, with_text(st, Seq::empty()))
            }
        } else if c == '$' {
            let (t, j) = expansion(s, i + 1, env);
            proof {
                lemma_expansion_advances(s, i + 1, env);
            }
            lex_from(s, j, env, with_text(st, t))
        } else {
            lex_from(s, i + 1, env, with_text(st, seq![c]))
        }
    }
}

/// The state before anything is read.
pub open spec fn initial_state() -> LexState {
    LexState { cmds: Seq::empty(), cur: Seq::empty(), arg: Seq::empty(), has: false }
}

/// The commands a line stands for, each a list of arguments.
pub open spec fn lex(s: Seq<char>, env: Seq<(String, String)>) -> Result<Seq<Seq<Seq<char>>>, LexError> {
    lex_from(s, 0, env, initial_state())
}

/// The arguments of a command, as character sequences.
pub open spec fn words_view(v: Seq<String>) -> Seq<Seq<char>> {
    v.map_values(|a: String| a@)
}

/// A list of commands, as nested character sequences.
pub open spec fn commands_view(v: Seq<Vec<String>>) -> Seq<Seq<Seq<char>>> {
    v.map_values(|c: Vec<String>| words_view(c@))
}

// ---------------------------------------------------------------------------
// Facts about the helpers
// ---------------------------------------------------------------------------

pub proof fn lemma_bare_name_end_bounds(s: Seq<char>, i: int)
    ensures
        bare_name_end(s, i) >= i,
        0 <= i <= s.len() ==> bare_name_end(s, i) <= s.len(),
    decreases s.len() - i,
{
    if 0 <= i < s.len() && is_name_char(s[i]) {
        lemma_bare_name_end_bounds(s, i + 1);
    }
}

pub proof fn lemma_expansion_advances(s: Seq<char>, i: int, env: Seq<(String, String)>)
    ensures
        expansion(s, i, env).1 >= i,
        0 <= i <= s.len() ==> expansion(s, i, env).1 <= s.len(),
{
    lemma_bare_name_end_bounds(s, i);
    lemma_find_char_bounds(s, i + 1, '}');
}

pub proof fn lemma_double_quoted_advances(s: Seq<char>, i: int, env: Seq<(String, String)>, acc: Seq<char>)
    ensures
        double_quoted(s, i, env, acc) matches Some((t, j)) ==> i < j <= s.len(),
    decreases s.len() - i,
{
    if 0 <= i < s.len() && s[i] != '"' {
        if s[i] == '\\' {
            if i + 1 < s.len() {
                let n = s[i + 1];
                let piece = if n == '"' || n == '\\' || n == '$' { seq![n] } else { seq!['\\', n] };
                lemma_double_quoted_advances(s, i + 2, env, acc + piece);
            }
        } else if s[i] == '$' {
            let (t, j) = expansion(s, i + 1, env);
            lemma_expansion_advances(s, i + 1, env);
            lemma_double_quoted_advances(s, j, env, acc + t);
        } else {
            lemma_double_quoted_advances(s, i + 1, env, acc.push(s[i]));
        }
    }
}

// ---------------------------------------------------------------------------
// Executable tokenizer
// ---------------------------------------------------------------------------

/// The tokenizer state held by the executable code, as a `LexState`.
pub open spec fn state_of(cmds: Seq<Vec<String>>, cur: Seq<String>, arg: Seq<char>, has: bool) -> LexState {
    LexState { cmds: commands_view(cmds), cur: words_view(cur), arg: arg, has: has }
}

/// Appends the value of `name` in the environment (nothing when unset).
fn push_var(name: &String, env: &[(String, String)], out: &mut String)
    ensures
        final(out)@ == old(out)@ + env_lookup(env@, name@),
{
    let mut k: usize = 0;
    assert(env@.skip(0) =~= env@);
    while k < env.len()
        invariant
            k <= env.len(),
            env_lookup(env@, name@) == env_lookup(env@.skip(k as int), name@),
            out@ == old(out)@,
        decreases env.len() - k,
    {
        assert(env@.skip(k as int).drop_first() =~= env@.skip(k + 1));
        assert(env@.skip(k as int)[0] == env@[k as int]);
        if env[k].0 == *name {
            out.append(env[k].1.as_str());
            return;
        }
        k = k + 1;
    }
    assert(env@.skip(k as int) =~= Seq::<(String, String)>::empty());
    assert(out@ =~= old(out)@ + env_lookup(env@, name@));
}

/// Expands the variable reference that starts just after a `$` at `i`,
/// appending its text to `out`; returns where reading resumes. `${NAME}`
/// reads up to the closing brace (to the end when there is none); a bare
/// `$NAME` takes the longest run of ASCII letters, digits and `_`; a `$`
/// followed by neither stays a literal `$`.
pub fn expand_var(s: &Vec<char>, i: usize, env: &[(String, String)], out: &mut String) -> (next: usize)
    requires
        i <= s.len(),
    ensures
        final(out)@ == old(out)@ + expansion(s@, i as int, env@).0,
        next == expansion(s@, i as int, env@).1,
        i <= next <= s.len(),
{
    proof {
        lemma_expansion_advances(s@, i as int, env@);
    }
    if i < s.len() && s[i] == '{' {
        // Braced form: ${NAME}
        let mut name = String::new();
        let mut j: usize = i + 1;
        while j < s.len() && s[j] != '}'
            invariant
                i + 1 <= j <= s.len(),
                find_char(s@, j as int, '}') == find_char(s@, i + 1, '}'),
                name@ == s@.subrange(i + 1, j as int),
            decreases s.len() - j,
        {
            push_char(&mut name, s[j]);
            j = j + 1;
            assert(name@ =~= s@.subrange(i + 1, j as int));
        }
        push_var(&name, env, out);
        if j < s.len() {
            j + 1
        } else {
            j
        }
    } else {
        // Bare form: $NAME (letters, digits, underscore).
        let mut name = String::new();
        let mut j: usize = i;
        while j < s.len() && is_name_char_exec(s[j])
            invariant
                i <= j <= s.len(),
                bare_name_end(s@, j as int) == bare_name_end(s@, i as int),
                name@ == s@.subrange(i as int, j as int),
            decreases s.len() - j,
        {
            push_char(&mut name, s[j]);
            j = j + 1;
            assert(name@ =~= s@.subrange(i as int, j as int));
        }
        if j == i {
            push_char(out, '$');
            assert(final(out)@ =~= old(out)@ + seq!['$']);
        } else {
            push_var(&name, env, out);
        }
        j
    }
}

fn is_name_char_exec(c: char) -> (res: bool)
    ensures
        res == is_name_char(c),
{
    ('a' <= c && c <= 'z') || ('A' <= c && c <= 'Z') || ('0' <= c && c <= '9') || c == '_'
}

proof fn lemma_words_push(v: Seq<String>, a: String)
    ensures
        words_view(v.push(a)) == words_view(v).push(a@),
{
    assert(words_view(v.push(a)) =~= words_view(v).push(a@));
}

proof fn lemma_commands_push(v: Seq<Vec<String>>, c: Vec<String>)
    ensures
        commands_view(v.push(c)) == commands_view(v).push(words_view(c@)),
{
    assert(commands_view(v.push(c)) =~= commands_view(v).push(words_view(c@)));
}

/// Ends the argument being built, if it has been started.
fn flush_arg_exec(current: &mut Vec<String>, arg: &mut String, has: &mut bool)
    ensures
        state_of(Seq::empty(), final(current)@, final(arg)@, *final(has))
            == flush_arg(state_of(Seq::empty(), old(current)@, old(arg)@, *old(has))),
{
    if *has {
        let mut a = String::new();
        std::mem::swap(&mut a, arg);
        proof {
            lemma_words_push(current@, a);
        }
        current.push(a);
        *has = false;
        assert(arg@ =~= Seq::<char>::empty());
    }
}

/// Parses a full input line into a list of commands, each a list of arguments.
/// Empty commands (e.g. from a trailing `;`) are dropped.
pub fn parse_line(line: &str, env: &[(String, String)]) -> (res: Result<Vec<Vec<String>>, LexError>)
    ensures
        match res {
            Ok(cmds) => lex(line@, env@) == Ok::<Seq<Seq<Seq<char>>>, LexError>(commands_view(cmds@)),
            Err(e) => lex(line@, env@) == Err::<Seq<Seq<Seq<char>>>, LexError>(e),
        },
{
    let s = chars_of(line);
    let mut commands: Vec<Vec<String>> = Vec::new();
    let mut current: Vec<String> = Vec::new();
    let mut arg = String::new();
    let mut has = false;
    let mut i: usize = 0;

    assert(state_of(commands@, current@, arg@, has) =~= initial_state()) by {
        assert(commands_view(commands@) =~= Seq::empty());
        assert(words_view(current@) =~= Seq::empty());
    }

    while i < s.len()
        invariant
            i <= s.len(),
            s@ == line@,
            lex_from(s@, i as int, env@, state_of(commands@, current@, arg@, has)) == lex(line@, env@),
        decreases s.len() - i,
    {
        let ghost st = state_of(commands@, current@, arg@, has);
        let c = s[i];
        if c == ' ' || c == '\t' {
            // Unquoted whitespace ends the current argument.
            flush_arg_exec(&mut current, &mut arg, &mut has);
            i = i + 1;
        } else if c == ';' {
            // Command separator.
            flush_arg_exec(&mut current, &mut arg, &mut has);
            if current.len() > 0 {
                let mut cur: Vec<String> = Vec::new();
                std::mem::swap(&mut cur, &mut current);
                proof {
                    lemma_commands_push(commands@, cur);
                }
                commands.push(cur);
                assert(words_view(current@) =~= Seq::<Seq<char>>::empty());
            }
            i = i + 1;
        } else if c == '\'' {
            // Single quotes: literal, no expansion or escapes inside.
            let ghost arg0 = arg@;
            let mut j: usize = i + 1;
            while j < s.len() && s[j] != '\''
                invariant
                    i + 1 <= j <= s.len(),
                    find_char(s@, j as int, '\'') == find_char(s@, i + 1, '\''),
                    arg@ == arg0 + s@.subrange(i + 1, j as int),
                decreases s.len() - j,
            {
                push_char(&mut arg, s[j]);
                j = j + 1;
                assert(arg@ =~= arg0 + s@.subrange(i + 1, j as int));
            }
            if j >= s.len() {
                return Err(LexError::UnterminatedQuote('\''));
            }
            has = true;
            i = j + 1;
        } else if c == '"' {
            // Double quotes: escapes for \" \\ \$ and env expansion are honoured.
            let ghost arg0 = arg@;
            let mut j: usize = i + 1;
            proof {
                assert(arg@.subrange(arg0.len() as int, arg@.len() as int) =~= Seq::<char>::empty());
                assert(arg@.subrange(0, arg0.len() as int) =~= arg0);
            }
            loop
                invariant_except_break
                    i < s.len(),
                    s@ == line@,
                    s@[i as int] == '"',
                    st == state_of(commands@, current@, arg0, has),
                    lex_from(s@, i as int, env@, st) == lex(line@, env@),
                    i + 1 <= j <= s.len(),
                    double_quoted(s@, j as int, env@, arg@.subrange(arg0.len() as int, arg@.len() as int))
                        == double_quoted(s@, i + 1, env@, Seq::empty()),
                    arg@.len() >= arg0.len(),
                    arg@.subrange(0, arg0.len() as int) == arg0,
                ensures
                    i < s.len(),
                    s@ == line@,
                    s@[i as int] == '"',
                    st == state_of(commands@, current@, arg0, has),
                    lex_from(s@, i as int, env@, st) == lex(line@, env@),
                    i + 1 < j <= s.len(),
                    double_quoted(s@, i + 1, env@, Seq::empty()) == Some::<(Seq<char>, int)>(
                        (arg@.subrange(arg0.len() as int, arg@.len() as int), j as int),
                    ),
                    arg@.subrange(0, arg0.len() as int) == arg0,
                    arg@.len() >= arg0.len(),
                decreases s.len() - j,
            {
                let ghost acc = arg@.subrange(arg0.len() as int, arg@.len() as int);
                if j >= s.len() {
                    return Err(LexError::UnterminatedQuote('"'));
                }
                let d = s[j];
                if d == '"' {
                    j = j + 1;
                    break;
                } else if d == '\\' {
                    if j + 1 >= s.len() {
                        return Err(LexError::UnterminatedQuote('"'));
                    }
                    let n = s[j + 1];
                    if n == '"' || n == '\\' || n == '$' {
                        push_char(&mut arg, n);
                        assert(arg@.subrange(arg0.len() as int, arg@.len() as int) =~= acc + seq![n]);
                    } else {
                        push_char(&mut arg, '\\');
                        push_char(&mut arg, n);
                        assert(arg@.subrange(arg0.len() as int, arg@.len() as int) =~= acc + seq!['\\', n]);
                    }
                    j = j + 2;
                } else if d == '$' {
                    let ghost before = arg@;
                    let ghost j0 = j;
                    j = expand_var(&s, j + 1, env, &mut arg);
                    assert(arg@.subrange(arg0.len() as int, arg@.len() as int) =~= acc + expansion(s@, j0 + 1, env@).0);
                } else {
                    push_char(&mut arg, d);
                    assert(arg@.subrange(arg0.len() as int, arg@.len() as int) =~= acc.push(d));
                    j = j + 1;
                }
                assert(arg@.subrange(0, arg0.len() as int) =~= arg0);
            }
            proof {
                assert(arg@ =~= arg0 + arg@.subrange(arg0.len() as int, arg@.len() as int));
            }
            has = true;
            i = j;
        } else if c == '\\' {
            // Backslash escape outside quotes: next char is literal.
            has = true;
            if i + 1 < s.len() {
                push_char(&mut arg, s[i + 1]);
                assert(arg@ =~= st.arg + seq![s@[i + 1]]);
                i = i + 2;
            } else {
                assert(arg@ =~= st.arg + Seq::<char>::empty());
                i = i + 1;
            }
        } else if c == '$' {
            // Environment variable expansion outside quotes.
            has = true;
            i = expand_var(&s, i + 1, env, &mut arg);
        } else {
            // Ordinary character.
            has = true;
            push_char(&mut arg, c);
            assert(arg@ =~= st.arg + seq![c]);
            i = i + 1;
        }
    }

    flush_arg_exec(&mut current, &mut arg, &mut has);
    if current.len() > 0 {
        proof {
            lemma_commands_push(commands@, current);
        }
        commands.push(current);
    }
    Ok(commands)
}

// ---------------------------------------------------------------------------
// Laws
// ---------------------------------------------------------------------------

/// No command in the state is empty.
pub open spec fn all_nonempty(cmds: Seq<Seq<Seq<char>>>) -> bool {
    forall|k: int| 0 <= k < cmds.len() ==> #[trigger] cmds[k].len() > 0
}

proof fn lemma_end_command_nonempty(st: LexState)
    requires
        all_nonempty(st.cmds),
    ensures
        all_nonempty(end_command(st).cmds),
{
    let f = flush_arg(st);
    if f.cur.len() > 0 {
        assert forall|k: int| 0 <= k < end_command(st).cmds.len() implies #[trigger] end_command(st).cmds[k].len() > 0 by {
            if k < f.cmds.len() {
                assert(end_command(st).cmds[k] == f.cmds[k]);
            }
        }
    }
}

proof fn lemma_lex_from_nonempty(s: Seq<char>, i: int, env: Seq<(String, String)>, st: LexState)
    requires
        all_nonempty(st.cmds),
    ensures
        lex_from(s, i, env, st) matches Ok(cmds) ==> all_nonempty(cmds),
    decreases s.len() - i,
{
    if i < 0 || i >= s.len() {
        lemma_end_command_nonempty(st);
    } else {
        let c = s[i];
        if c == ' ' || c == '\t' {
            lemma_lex_from_nonempty(s, i + 1, env, flush_arg(st));
        } else if c == ';' {
            lemma_end_command_nonempty(st);
            lemma_lex_from_nonempty(s, i + 1, env, end_command(st));
        } else if c == '\'' {
            let close = find_char(s, i + 1, '\'');
            lemma_find_char_bounds(s, i + 1, '\'');
            if close < s.len() {
                lemma_lex_from_nonempty(s, close + 1, env, with_text(st, s.subrange(i + 1, close)));
            }
        } else if c == '"' {
            lemma_double_quoted_advances(s, i + 1, env, Seq::empty());
            if let Some((t, j)) = double_quoted(s, i + 1, env, Seq::empty()) {
                lemma_lex_from_nonempty(s, j, env, with_text(st, t));
            }
        } else if c == '\\' {
            if i + 1 < s.len() {
                lemma_lex_from_nonempty(s, i + 2, env, with_text(st, seq![s[i + 1]]));
            } else {
                lemma_lex_from_nonempty(s, i + 1, env, with_text(st, Seq::empty()));
            }
        } else if c == '$' {
            let (t, j) = expansion(s, i + 1, env);
            lemma_expansion_advances(s, i + 1, env);
            lemma_lex_from_nonempty(s, j, env, with_text(st, t));
        } else {
            lemma_lex_from_nonempty(s, i + 1, env, with_text(st, seq![c]));
        }
    }
}

/// Law: empty commands (from `;;` or a trailing `;`) are dropped, so every
/// command of a parsed line has at least one argument.
pub proof fn law_no_empty_commands(s: Seq<char>, env: Seq<(String, String)>)
    ensures
        lex(s, env) matches Ok(cmds) ==> forall|k: int| 0 <= k < cmds.len() ==> #[trigger] cmds[k].len() > 0,
{
    lemma_lex_from_nonempty(s, 0, env, initial_state());
}

/// Law: single quotes keep their text literally: no splitting, no escapes,
/// no expansion.
pub proof fn law_single_quotes_literal(t: Seq<char>, env: Seq<(String, String)>)
    requires
        !t.contains('\''),
    ensures
        lex(seq!['\''] + t + seq!['\''], env) == Ok::<Seq<Seq<Seq<char>>>, LexError>(seq![seq![t]]),
{
    let s = seq!['\''] + t + seq!['\''];
    assert forall|k: int| 1 <= k < s.len() - 1 implies s[k] != '\'' by {
        assert(s[k] == t[k - 1]);
        if s[k] == '\'' {
            assert(t.contains('\''));
        }
    }
    lemma_find_char_skips(s, 1, s.len() - 1, '\'');
    assert(s.subrange(1, s.len() - 1) =~= t);
    let st = with_text(initial_state(), t);
    assert(lex_from(s, s.len() as int, env, st) == Ok::<Seq<Seq<Seq<char>>>, LexError>(end_command(st).cmds));
    assert(end_command(st).cmds =~= seq![seq![t]]) by {
        assert(flush_arg(st).cur =~= seq![t]);
    }
}

/// `double_quoted` reads over text with no `"`, `\\` or `$` one character at a time.
proof fn lemma_double_quoted_plain(s: Seq<char>, i: int, j: int, env: Seq<(String, String)>, acc: Seq<char>)
    requires
        0 <= i <= j <= s.len(),
        forall|k: int| i <= k < j ==> s[k] != '"' && s[k] != '\\' && s[k] != '$',
    ensures
        double_quoted(s, i, env, acc) == double_quoted(s, j, env, acc + s.subrange(i, j)),
    decreases j - i,
{
    if i < j {
        lemma_double_quoted_plain(s, i + 1, j, env, acc.push(s[i]));
        assert(acc.push(s[i]) + s.subrange(i + 1, j) =~= acc + s.subrange(i, j));
    } else {
        assert(acc + s.subrange(i, j) =~= acc);
    }
}

/// Law: double quotes keep their text as one argument, spaces, tabs and `;`
/// included, when it holds no `"`, backslash or `$`.
pub proof fn law_double_quotes_group(t: Seq<char>, env: Seq<(String, String)>)
    requires
        !t.contains('"'),
        !t.contains('\\'),
        !t.contains('$'),
    ensures
        lex(seq!['"'] + t + seq!['"'], env) == Ok::<Seq<Seq<Seq<char>>>, LexError>(seq![seq![t]]),
{
    let s = seq!['"'] + t + seq!['"'];
    let n = s.len() - 1;
    assert forall|k: int| 1 <= k < n implies s[k] != '"' && s[k] != '\\' && s[k] != '$' by {
        assert(s[k] == t[k - 1]);
        if s[k] == '"' || s[k] == '\\' || s[k] == '$' {
            assert(t.contains(s[k]));
        }
    }
    lemma_double_quoted_plain(s, 1, n, env, Seq::empty());
    assert(Seq::<char>::empty() + s.subrange(1, n) =~= t);
    assert(double_quoted(s, 1, env, Seq::empty()) == Some((t, n + 1)));
    let st = with_text(initial_state(), t);
    assert(with_text(initial_state(), t).arg =~= t);
    assert(lex_from(s, n + 1, env, st) == Ok::<Seq<Seq<Seq<char>>>, LexError>(end_command(st).cmds));
    assert(end_command(st).cmds =~= seq![seq![t]]) by {
        assert(flush_arg(st).cur =~= seq![t]);
    }
}

/// Law: `${NAME}` stands for the value of `NAME` in the environment, as an
/// argument of its own (empty when `NAME` is unset).
pub proof fn law_braced_variable(name: Seq<char>, env: Seq<(String, String)>)
    requires
        !name.contains('}'),
    ensures
        lex(seq!['$', '{'] + name + seq!['}'], env) == Ok::<Seq<Seq<Seq<char>>>, LexError>(
            seq![seq![env_lookup(env, name)]],
        ),
{
    let s = seq!['$', '{'] + name + seq!['}'];
    let close = s.len() - 1;
    assert forall|k: int| 2 <= k < close implies s[k] != '}' by {
        assert(s[k] == name[k - 2]);
        if s[k] == '}' {
            assert(name.contains('}'));
        }
    }
    lemma_find_char_skips(s, 2, close, '}');
    assert(s.subrange(2, close) =~= name);
    let v = env_lookup(env, name);
    assert(expansion(s, 1, env) == (v, close + 1));
    let st = with_text(initial_state(), v);
    assert(with_text(initial_state(), v).arg =~= v);
    assert(lex_from(s, close + 1, env, st) == Ok::<Seq<Seq<Seq<char>>>, LexError>(end_command(st).cmds));
    assert(end_command(st).cmds =~= seq![seq![v]]) by {
        assert(flush_arg(st).cur =~= seq![v]);
    }
}

// --- Chaining -------------------------------------------------------------

/// Characters that the tokenizer treats one at a time: no quotes, no
/// backslash, no `$`.
pub open spec fn is_plain_char(c: char) -> bool {
    c != '\'' && c != '"' && c != '\\' && c != '$'
}

/// Text made only of plain characters.
pub open spec fn is_plain(a: Seq<char>) -> bool {
    forall|k: int| 0 <= k < a.len() ==> #[trigger] is_plain_char(a[k])
}

/// Puts earlier commands in front of those of a state.
pub open spec fn add_prefix(st: LexState, p: Seq<Seq<Seq<char>>>) -> LexState {
    LexState { cmds: p + st.cmds, cur: st.cur, arg: st.arg, has: st.has }
}

/// Puts earlier commands in front of a result.
pub open spec fn prepend(p: Seq<Seq<Seq<char>>>, r: Result<Seq<Seq<Seq<char>>>, LexError>) -> Result<Seq<Seq<Seq<char>>>, LexError> {
    match r {
        Ok(c) => Ok(p + c),
        Err(e) => Err(e),
    }
}

/// The state after reading the plain text `a` from position `i`.
pub open spec fn plain_state(a: Seq<char>, i: int, st: LexState) -> LexState
    decreases a.len() - i,
{
    if i < 0 || i >= a.len() {
        st
    } else if a[i] == ' ' || a[i] == '\t' {
        plain_state(a, i + 1, flush_arg(st))
    } else if a[i] == ';' {
        plain_state(a, i + 1, end_command(st))
    } else {
        plain_state(a, i + 1, with_text(st, seq![a[i]]))
    }
}

proof fn lemma_add_prefix_steps(st: LexState, p: Seq<Seq<Seq<char>>>, t: Seq<char>)
    ensures
        flush_arg(add_prefix(st, p)) == add_prefix(flush_arg(st), p),
        end_command(add_prefix(st, p)) == add_prefix(end_command(st), p),
        with_text(add_prefix(st, p), t) == add_prefix(with_text(st, t), p),
{
    let f = flush_arg(st);
    assert((p + f.cmds).push(f.cur) =~= p + f.cmds.push(f.cur));
}

proof fn lemma_lex_from_prefix(s: Seq<char>, i: int, env: Seq<(String, String)>, st: LexState, p: Seq<Seq<Seq<char>>>)
    ensures
        lex_from(s, i, env, add_prefix(st, p)) == prepend(p, lex_from(s, i, env, st)),
    decreases s.len() - i,
{
    if i < 0 || i >= s.len() {
        lemma_add_prefix_steps(st, p, Seq::empty());
    } else {
        let c = s[i];
        if c == ' ' || c == '\t' {
            lemma_add_prefix_steps(st, p, Seq::empty());
            lemma_lex_from_prefix(s, i + 1, env, flush_arg(st), p);
        } else if c == ';' {
            lemma_add_prefix_steps(st, p, Seq::empty());
            lemma_lex_from_prefix(s, i + 1, env, end_command(st), p);
        } else if c == '\'' {
            let close = find_char(s, i + 1, '\'');
            lemma_find_char_bounds(s, i + 1, '\'');
            if close < s.len() {
                lemma_add_prefix_steps(st, p, s.subrange(i + 1, close));
                lemma_lex_from_prefix(s, close + 1, env, with_text(st, s.subrange(i + 1, close)), p);
            }
        } else if c == '"' {
            lemma_double_quoted_advances(s, i + 1, env, Seq::empty());
            if let Some((t, j)) = double_quoted(s, i + 1, env, Seq::empty()) {
                lemma_add_prefix_steps(st, p, t);
                lemma_lex_from_prefix(s, j, env, with_text(st, t), p);
            }
        } else if c == '\\' {
            if i + 1 < s.len() {
                lemma_add_prefix_steps(st, p, seq![s[i + 1]]);
                lemma_lex_from_prefix(s, i + 2, env, with_text(st, seq![s[i + 1]]), p);
            } else {
                lemma_add_prefix_steps(st, p, Seq::empty());
                lemma_lex_from_prefix(s, i + 1, env, with_text(st, Seq::empty()), p);
            }
        } else if c == '$' {
            let (t, j) = expansion(s, i + 1, env);
            lemma_expansion_advances(s, i + 1, env);
            lemma_add_prefix_steps(st, p, t);
            lemma_lex_from_prefix(s, j, env, with_text(st, t), p);
        } else {
            lemma_add_prefix_steps(st, p, seq![c]);
            lemma_lex_from_prefix(s, i + 1, env, with_text(st, seq![c]), p);
        }
    }
}

proof fn lemma_bare_name_end_shift(p: Seq<char>, b: Seq<char>, k: int)
    requires
        k >= 0,
    ensures
        bare_name_end(p + b, p.len() + k) == p.len() + bare_name_end(b, k),
    decreases b.len() - k,
{
    if k < b.len() {
        assert((p + b)[p.len() + k] == b[k]);
        lemma_bare_name_end_shift(p, b, k + 1);
    }
}

proof fn lemma_expansion_shift(p: Seq<char>, b: Seq<char>, k: int, env: Seq<(String, String)>)
    requires
        k >= 0,
    ensures
        expansion(p + b, p.len() + k, env) == (expansion(b, k, env).0, p.len() + expansion(b, k, env).1),
{
    let s = p + b;
    lemma_find_char_shift(p, b, k + 1, '}');
    lemma_bare_name_end_shift(p, b, k);
    lemma_find_char_bounds(b, k + 1, '}');
    lemma_bare_name_end_bounds(b, k);
    if k < b.len() {
        assert(s[p.len() + k] == b[k]);
    }
    let close = find_char(b, k + 1, '}');
    if k < b.len() && b[k] == '{' {
        if k + 1 <= b.len() {
            assert(s.subrange(p.len() + k + 1, p.len() + close) =~= b.subrange(k + 1, close));
        }
    } else {
        let end = bare_name_end(b, k);
        if end != k && k <= b.len() {
            assert(s.subrange(p.len() + k, p.len() + end) =~= b.subrange(k, end));
        }
    }
}

proof fn lemma_double_quoted_shift(p: Seq<char>, b: Seq<char>, k: int, env: Seq<(String, String)>, acc: Seq<char>)
    requires
        k >= 0,
    ensures
        double_quoted(p + b, p.len() + k, env, acc) == (match double_quoted(b, k, env, acc) {
            Some((t, j)) => Some((t, p.len() + j)),
            None => None::<(Seq<char>, int)>,
        }),
    decreases b.len() - k,
{
    let s = p + b;
    if k < b.len() {
        assert(s[p.len() + k] == b[k]);
        if b[k] == '"' {
        } else if b[k] == '\\' {
            if k + 1 < b.len() {
                assert(s[p.len() + k + 1] == b[k + 1]);
                let n = b[k + 1];
                let piece = if n == '"' || n == '\\' || n == '$' { seq![n] } else { seq!['\\', n] };
                lemma_double_quoted_shift(p, b, k + 2, env, acc + piece);
            }
        } else if b[k] == '$' {
            lemma_expansion_shift(p, b, k + 1, env);
            lemma_expansion_advances(b, k + 1, env);
            let (t, j) = expansion(b, k + 1, env);
            lemma_double_quoted_shift(p, b, j, env, acc + t);
        } else {
            lemma_double_quoted_shift(p, b, k + 1, env, acc.push(b[k]));
        }
    }
}

proof fn lemma_lex_from_shift(p: Seq<char>, b: Seq<char>, k: int, env: Seq<(String, String)>, st: LexState)
    requires
        k >= 0,
    ensures
        lex_from(p + b, p.len() + k, env, st) == lex_from(b, k, env, st),
    decreases b.len() - k,
{
    let s = p + b;
    if k < b.len() {
        let c = b[k];
        assert(s[p.len() + k] == c);
        if c == ' ' || c == '\t' {
            lemma_lex_from_shift(p, b, k + 1, env, flush_arg(st));
        } else if c == ';' {
            lemma_lex_from_shift(p, b, k + 1, env, end_command(st));
        } else if c == '\'' {
            lemma_find_char_shift(p, b, k + 1, '\'');
            lemma_find_char_bounds(b, k + 1, '\'');
            let close = find_char(b, k + 1, '\'');
            if close < b.len() {
                assert(s.subrange(p.len() + k + 1, p.len() + close) =~= b.subrange(k + 1, close));
                lemma_lex_from_shift(p, b, close + 1, env, with_text(st, b.subrange(k + 1, close)));
            }
        } else if c == '"' {
            lemma_double_quoted_shift(p, b, k + 1, env, Seq::empty());
            lemma_double_quoted_advances(b, k + 1, env, Seq::empty());
            if let Some((t, j)) = double_quoted(b, k + 1, env, Seq::empty()) {
                lemma_lex_from_shift(p, b, j, env, with_text(st, t));
            }
        } else if c == '\\' {
            if k + 1 < b.len() {
                assert(s[p.len() + k + 1] == b[k + 1]);
                lemma_lex_from_shift(p, b, k + 2, env, with_text(st, seq![b[k + 1]]));
            } else {
                lemma_lex_from_shift(p, b, k + 1, env, with_text(st, Seq::empty()));
            }
        } else if c == '$' {
            lemma_expansion_shift(p, b, k + 1, env);
            lemma_expansion_advances(b, k + 1, env);
            let (t, j) = expansion(b, k + 1, env);
            lemma_lex_from_shift(p, b, j, env, with_text(st, t));
        } else {
            lemma_lex_from_shift(p, b, k + 1, env, with_text(st, seq![c]));
        }
    }
}

/// A state whose argument is empty whenever it has not been started.
pub open spec fn tidy(st: LexState) -> bool {
    !st.has ==> st.arg.len() == 0
}

proof fn lemma_plain_prefix(a: Seq<char>, t: Seq<char>, i: int, env: Seq<(String, String)>, st: LexState)
    requires
        is_plain(a),
        0 <= i <= a.len(),
        tidy(st),
    ensures
        lex_from(a + t, i, env, st) == lex_from(a + t, a.len() as int, env, plain_state(a, i, st)),
        tidy(plain_state(a, i, st)),
    decreases a.len() - i,
{
    if i < a.len() {
        let c = a[i];
        assert((a + t)[i] == c);
        assert(is_plain_char(c));
        if c == ' ' || c == '\t' {
            lemma_plain_prefix(a, t, i + 1, env, flush_arg(st));
        } else if c == ';' {
            lemma_plain_prefix(a, t, i + 1, env, end_command(st));
        } else {
            lemma_plain_prefix(a, t, i + 1, env, with_text(st, seq![c]));
        }
    }
}

/// Law: command chaining. When `a` holds no quote, backslash or `$`, the line
/// `a;b` stands for the commands of `a` followed by those of `b`.
pub proof fn law_chaining(a: Seq<char>, b: Seq<char>, env: Seq<(String, String)>)
    requires
        is_plain(a),
    ensures
        lex(a, env) is Ok,
        lex(a + seq![';'] + b, env) == prepend(lex(a, env)->Ok_0, lex(b, env)),
{
    let t = seq![';'] + b;
    let s = a + t;
    assert(a + seq![';'] + b =~= s);
    let ps = plain_state(a, 0, initial_state());
    lemma_plain_prefix(a, t, 0, env, initial_state());
    lemma_plain_prefix(a, Seq::empty(), 0, env, initial_state());
    assert(a + Seq::<char>::empty() =~= a);
    let e = end_command(ps);
    // lex(a) ends in the state e.
    assert(lex(a, env) == Ok::<Seq<Seq<Seq<char>>>, LexError>(e.cmds));
    // Reading `;` ends the command.
    assert(s[a.len() as int] == ';');
    assert(lex_from(s, a.len() as int, env, ps) == lex_from(s, (a.len() + 1) as int, env, e));
    // The rest is read as `b` alone.
    let p = a + seq![';'];
    assert(s =~= p + b);
    lemma_lex_from_shift(p, b, 0, env, e);
    assert(e == add_prefix(initial_state(), e.cmds)) by {
        assert(e.cmds + Seq::<Seq<Seq<char>>>::empty() =~= e.cmds);
        assert(e.cur =~= Seq::<Seq<char>>::empty());
        assert(e.arg =~= Seq::<char>::empty());
    }
    lemma_lex_from_prefix(b, 0, env, initial_state(), e.cmds);
}

// --- Errors and the environment ---------------------------------------------

proof fn lemma_lex_from_error(s: Seq<char>, i: int, env: Seq<(String, String)>, st: LexState)
    ensures
        lex_from(s, i, env, st) matches Err(e) ==> exists|k: int|
            0 <= k < s.len() && (s[k] == '\'' || s[k] == '"') && e == LexError::UnterminatedQuote(#[trigger] s[k]),
    decreases s.len() - i,
{
    if 0 <= i < s.len() {
        let c = s[i];
        if c == ' ' || c == '\t' {
            lemma_lex_from_error(s, i + 1, env, flush_arg(st));
        } else if c == ';' {
            lemma_lex_from_error(s, i + 1, env, end_command(st));
        } else if c == '\'' {
            let close = find_char(s, i + 1, '\'');
            lemma_find_char_bounds(s, i + 1, '\'');
            if close < s.len() {
                lemma_lex_from_error(s, close + 1, env, with_text(st, s.subrange(i + 1, close)));
            }
        } else if c == '"' {
            lemma_double_quoted_advances(s, i + 1, env, Seq::empty());
            if let Some((t, j)) = double_quoted(s, i + 1, env, Seq::empty()) {
                lemma_lex_from_error(s, j, env, with_text(st, t));
            }
        } else if c == '\\' {
            if i + 1 < s.len() {
                lemma_lex_from_error(s, i + 2, env, with_text(st, seq![s[i + 1]]));
            } else {
                lemma_lex_from_error(s, i + 1, env, with_text(st, Seq::empty()));
            }
        } else if c == '$' {
            let (t, j) = expansion(s, i + 1, env);
            lemma_expansion_advances(s, i + 1, env);
            lemma_lex_from_error(s, j, env, with_text(st, t));
        } else {
            lemma_lex_from_error(s, i + 1, env, with_text(st, seq![c]));
        }
    }
}

/// Law: the one error names the quote that was left open, a single or a
/// double quote that occurs in the line; so a line without quotes always
/// parses.
pub proof fn law_error_names_open_quote(s: Seq<char>, env: Seq<(String, String)>)
    ensures
        lex(s, env) matches Err(LexError::UnterminatedQuote(q)) ==> (q == '\'' || q == '"') && s.contains(q),
        !s.contains('\'') && !s.contains('"') ==> lex(s, env) is Ok,
{
    lemma_lex_from_error(s, 0, env, initial_state());
    if lex(s, env) is Err {
        let k = choose|k: int|
            0 <= k < s.len() && (s[k] == '\'' || s[k] == '"') && lex(s, env)->Err_0 == LexError::UnterminatedQuote(
                #[trigger] s[k],
            );
        assert(s.contains(s[k]));
    }
}

/// Text without `$`.
pub open spec fn no_dollar(s: Seq<char>) -> bool {
    forall|k: int| 0 <= k < s.len() ==> #[trigger] s[k] != '$'
}

proof fn lemma_double_quoted_env(s: Seq<char>, i: int, e1: Seq<(String, String)>, e2: Seq<(String, String)>, acc: Seq<char>)
    requires
        no_dollar(s),
    ensures
        double_quoted(s, i, e1, acc) == double_quoted(s, i, e2, acc),
    decreases s.len() - i,
{
    if 0 <= i < s.len() && s[i] != '"' {
        assert(s[i] != '$');
        if s[i] == '\\' {
            if i + 1 < s.len() {
                let n = s[i + 1];
                let piece = if n == '"' || n == '\\' || n == '$' { seq![n] } else { seq!['\\', n] };
                lemma_double_quoted_env(s, i + 2, e1, e2, acc + piece);
            }
        } else {
            lemma_double_quoted_env(s, i + 1, e1, e2, acc.push(s[i]));
        }
    }
}

proof fn lemma_lex_from_env(s: Seq<char>, i: int, e1: Seq<(String, String)>, e2: Seq<(String, String)>, st: LexState)
    requires
        no_dollar(s),
    ensures
        lex_from(s, i, e1, st) == lex_from(s, i, e2, st),
    decreases s.len() - i,
{
    if 0 <= i < s.len() {
        let c = s[i];
        assert(c != '$');
        if c == ' ' || c == '\t' {
            lemma_lex_from_env(s, i + 1, e1, e2, flush_arg(st));
        } else if c == ';' {
            lemma_lex_from_env(s, i + 1, e1, e2, end_command(st));
        } else if c == '\'' {
            let close = find_char(s, i + 1, '\'');
            lemma_find_char_bounds(s, i + 1, '\'');
            if close < s.len() {
                lemma_lex_from_env(s, close + 1, e1, e2, with_text(st, s.subrange(i + 1, close)));
            }
        } else if c == '"' {
            lemma_double_quoted_env(s, i + 1, e1, e2, Seq::empty());
            lemma_double_quoted_advances(s, i + 1, e1, Seq::empty());
            if let Some((t, j)) = double_quoted(s, i + 1, e1, Seq::empty()) {
                lemma_lex_from_env(s, j, e1, e2, with_text(st, t));
            }
        } else if c == '\\' {
            if i + 1 < s.len() {
                lemma_lex_from_env(s, i + 2, e1, e2, with_text(st, seq![s[i + 1]]));
            } else {
                lemma_lex_from_env(s, i + 1, e1, e2, with_text(st, Seq::empty()));
            }
        } else {
            lemma_lex_from_env(s, i + 1, e1, e2, with_text(st, seq![c]));
        }
    }
}

/// Law: a line without `$` means the same under any environment.
pub proof fn law_no_dollar_env_free(s: Seq<char>, e1: Seq<(String, String)>, e2: Seq<(String, String)>)
    requires
        !s.contains('$'),
    ensures
        lex(s, e1) == lex(s, e2),
{
    assert forall|k: int| 0 <= k < s.len() implies #[trigger] s[k] != '$' by {
        if s[k] == '$' {
            assert(s.contains(s[k]));
        }
    }
    lemma_lex_from_env(s, 0, e1, e2, initial_state());
}

// --- Quoting ----------------------------------------------------------------

/// A word in single quotes.
pub open spec fn single_quoted(w: Seq<char>) -> Seq<char> {
    seq!['\''] + w + seq!['\'']
}

/// The words of a command, each in single quotes, a space between them.
pub open spec fn quoted_command(ws: Seq<Seq<char>>) -> Seq<char>
    decreases ws.len(),
{
    if ws.len() == 0 {
        Seq::empty()
    } else if ws.len() == 1 {
        single_quoted(ws[0])
    } else {
        single_quoted(ws[0]) + seq![' '] + quoted_command(ws.drop_first())
    }
}

/// Commands written with `quoted_command`, a `;` between them.
pub open spec fn quoted_line(cmds: Seq<Seq<Seq<char>>>) -> Seq<char>
    decreases cmds.len(),
{
    if cmds.len() == 0 {
        Seq::empty()
    } else if cmds.len() == 1 {
        quoted_command(cmds[0])
    } else {
        quoted_command(cmds[0]) + seq![';'] + quoted_line(cmds.drop_first())
    }
}

/// Every word of every command is free of single quotes.
pub open spec fn quotable(cmds: Seq<Seq<Seq<char>>>) -> bool {
    forall|i: int, j: int| 0 <= i < cmds.len() && 0 <= j < cmds[i].len() ==> !(#[trigger] cmds[i][j]).contains('\'')
}

/// Reading one quoted word, then `t`.
proof fn lemma_read_quoted_word(w: Seq<char>, t: Seq<char>, env: Seq<(String, String)>, st: LexState)
    requires
        !w.contains('\''),
        st.arg.len() == 0,
    ensures
        lex_from(single_quoted(w) + t, 0, env, st) == lex_from(t, 0, env, with_text(st, w)),
{
    let q = single_quoted(w);
    let s = q + t;
    assert forall|k: int| 1 <= k < w.len() + 1 implies s[k] != '\'' by {
        assert(s[k] == w[k - 1]);
        if s[k] == '\'' {
            assert(w.contains('\''));
        }
    }
    let n = w.len() + 1;
    assert(s[n as int] == '\'');
    lemma_find_char_skips(s, 1, n as int, '\'');
    assert(s.subrange(1, n as int) =~= w);
    lemma_lex_from_shift(q, t, 0, env, with_text(st, w));
}

/// Reading a quoted command, then `t`: its words but the last are arguments
/// of the command being built, the last is the argument being built.
proof fn lemma_read_quoted_command(ws: Seq<Seq<char>>, t: Seq<char>, env: Seq<(String, String)>, st: LexState)
    requires
        ws.len() > 0,
        forall|j: int| 0 <= j < ws.len() ==> !(#[trigger] ws[j]).contains('\''),
        st.arg.len() == 0,
        !st.has,
    ensures
        lex_from(quoted_command(ws) + t, 0, env, st) == lex_from(
            t,
            0,
            env,
            LexState { cmds: st.cmds, cur: st.cur + ws.drop_last(), arg: ws.last(), has: true },
        ),
    decreases ws.len(),
{
    let w = ws[0];
    assert(!ws[0].contains('\''));
    let st1 = with_text(st, w);
    assert(st1.arg =~= w);
    if ws.len() == 1 {
        lemma_read_quoted_word(w, t, env, st);
        assert(ws.drop_last() =~= Seq::<Seq<char>>::empty());
        assert(st.cur + ws.drop_last() =~= st.cur);
        assert(st1 == LexState { cmds: st.cmds, cur: st.cur + ws.drop_last(), arg: ws.last(), has: true });
    } else {
        let rest = ws.drop_first();
        let r = seq![' '] + (quoted_command(rest) + t);
        assert(quoted_command(ws) + t =~= single_quoted(w) + r);
        lemma_read_quoted_word(w, r, env, st);
        // The space ends the first word.
        assert(r[0] == ' ');
        let st2 = flush_arg(st1);
        lemma_lex_from_shift(seq![' '], quoted_command(rest) + t, 0, env, st2);
        assert(st2 == LexState { cmds: st.cmds, cur: st.cur.push(w), arg: Seq::empty(), has: false });
        assert forall|j: int| 0 <= j < rest.len() implies !(#[trigger] rest[j]).contains('\'') by {
            assert(rest[j] == ws[j + 1]);
        }
        lemma_read_quoted_command(rest, t, env, st2);
        assert(st.cur.push(w) + rest.drop_last() =~= st.cur + ws.drop_last());
        assert(rest.last() == ws.last());
    }
}

proof fn lemma_read_quoted_line(cmds: Seq<Seq<Seq<char>>>, env: Seq<(String, String)>, st: LexState)
    requires
        quotable(cmds),
        forall|i: int| 0 <= i < cmds.len() ==> (#[trigger] cmds[i]).len() > 0,
        st.arg.len() == 0,
        !st.has,
        st.cur.len() == 0,
    ensures
        lex_from(quoted_line(cmds), 0, env, st) == Ok::<Seq<Seq<Seq<char>>>, LexError>(st.cmds + cmds),
    decreases cmds.len(),
{
    if cmds.len() == 0 {
        assert(st.cmds + cmds =~= st.cmds);
        assert(end_command(st) == st);
    } else {
        let c = cmds[0];
        assert(c.len() > 0);
        assert forall|j: int| 0 <= j < c.len() implies !(#[trigger] c[j]).contains('\'') by {
            assert(!cmds[0][j].contains('\''));
        }
        let stw = LexState { cmds: st.cmds, cur: st.cur + c.drop_last(), arg: c.last(), has: true };
        assert(st.cur + c.drop_last() =~= c.drop_last());
        assert(c.drop_last().push(c.last()) =~= c);
        let e = end_command(stw);
        assert(e == LexState { cmds: st.cmds.push(c), cur: Seq::empty(), arg: Seq::empty(), has: false });
        if cmds.len() == 1 {
            lemma_read_quoted_command(c, Seq::empty(), env, st);
            assert(quoted_line(cmds) + Seq::<char>::empty() =~= quoted_line(cmds));
            assert(st.cmds.push(c) =~= st.cmds + cmds);
        } else {
            let rest = cmds.drop_first();
            let r = seq![';'] + quoted_line(rest);
            assert(quoted_line(cmds) =~= quoted_command(c) + r);
            lemma_read_quoted_command(c, r, env, st);
            assert(r[0] == ';');
            lemma_lex_from_shift(seq![';'], quoted_line(rest), 0, env, e);
            assert(quotable(rest)) by {
                assert forall|i: int, j: int| 0 <= i < rest.len() && 0 <= j < rest[i].len() implies !(
                #[trigger] rest[i][j]).contains('\'') by {
                    assert(rest[i] == cmds[i + 1]);
                }
            }
            assert forall|i: int| 0 <= i < rest.len() implies (#[trigger] rest[i]).len() > 0 by {
                assert(rest[i] == cmds[i + 1]);
            }
            lemma_read_quoted_line(rest, env, e);
            assert(st.cmds.push(c) + rest =~= st.cmds + cmds);
        }
    }
}

/// Law: quoting round-trips. Commands whose words hold no single quote,
/// each with at least one word, written with every word in single quotes,
/// a space between words and a `;` between commands, parse back to those
/// very commands, whatever the words hold otherwise (spaces, `;`, `"`,
/// backslashes, `$`).
pub proof fn law_single_quoting_round_trip(cmds: Seq<Seq<Seq<char>>>, env: Seq<(String, String)>)
    requires
        quotable(cmds),
        forall|i: int| 0 <= i < cmds.len() ==> (#[trigger] cmds[i]).len() > 0,
    ensures
        lex(quoted_line(cmds), env) == Ok::<Seq<Seq<Seq<char>>>, LexError>(cmds),
{
    lemma_read_quoted_line(cmds, env, initial_state());
    assert(initial_state().cmds + cmds =~= cmds);
}

// --- Splitting a plain line -------------------------------------------------

/// The pieces of `s` between the characters that `sep` picks, as std's
/// `str::split` gives them: `n` separators make `n + 1` pieces, some of them
/// possibly empty.
pub open spec fn split_by(s: Seq<char>, sep: spec_fn(char) -> bool) -> Seq<Seq<char>>
    decreases s.len(),
{
    if s.len() == 0 {
        seq![Seq::empty()]
    } else {
        let init = split_by(s.drop_last(), sep);
        if sep(s.last()) {
            init.push(Seq::empty())
        } else {
            init.drop_last().push(init.last().push(s.last()))
        }
    }
}

/// Spaces and tabs.
pub open spec fn blank() -> spec_fn(char) -> bool {
    |c: char| c == ' ' || c == '\t'
}

/// The command separator.
pub open spec fn semicolon() -> spec_fn(char) -> bool {
    |c: char| c == ';'
}

/// A non-empty word.
pub open spec fn nonempty_word() -> spec_fn(Seq<char>) -> bool {
    |w: Seq<char>| w.len() > 0
}

/// A command with at least one word.
pub open spec fn nonempty_command() -> spec_fn(Seq<Seq<char>>) -> bool {
    |c: Seq<Seq<char>>| c.len() > 0
}

/// The words of a piece of a line: split on spaces and tabs, empty words
/// dropped.
pub open spec fn words_of(c: Seq<char>) -> Seq<Seq<char>> {
    split_by(c, blank()).filter(nonempty_word())
}

/// The commands of the pieces of a line: the words of each, commands
/// without words dropped.
pub open spec fn commands_of(pieces: Seq<Seq<char>>) -> Seq<Seq<Seq<char>>> {
    pieces.map_values(|c: Seq<char>| words_of(c)).filter(nonempty_command())
}

/// The commands of a plain line: split on `;`, each piece split on spaces
/// and tabs, empty words and empty commands dropped.
pub open spec fn plain_commands(s: Seq<char>) -> Seq<Seq<Seq<char>>> {
    commands_of(split_by(s, semicolon()))
}

proof fn lemma_split_by_len(s: Seq<char>, sep: spec_fn(char) -> bool)
    ensures
        split_by(s, sep).len() >= 1,
    decreases s.len(),
{
    if s.len() > 0 {
        lemma_split_by_len(s.drop_last(), sep);
    }
}

/// The state `st` is where the tokenizer stands after reading the plain
/// text `p`: the finished pieces are its commands, the words of the last
/// piece but its last are the command being built, and its last word is the
/// argument being built.
pub open spec fn reads_plain(p: Seq<char>, st: LexState) -> bool {
    let segs = split_by(p, semicolon());
    let ws = split_by(segs.last(), blank());
    &&& st.cmds == commands_of(segs.drop_last())
    &&& st.cur == ws.drop_last().filter(nonempty_word())
    &&& st.arg == ws.last()
    &&& st.has == (ws.last().len() > 0)
}

proof fn lemma_filter_empty<A>(p: spec_fn(A) -> bool)
    ensures
        Seq::<A>::empty().filter(p) == Seq::<A>::empty(),
{
    reveal(Seq::filter);
}

proof fn lemma_flush_plain(st: LexState, ws: Seq<Seq<char>>)
    requires
        ws.len() >= 1,
        st.cur == ws.drop_last().filter(nonempty_word()),
        st.arg == ws.last(),
        st.has == (ws.last().len() > 0),
    ensures
        flush_arg(st).cmds == st.cmds,
        flush_arg(st).cur == ws.filter(nonempty_word()),
        flush_arg(st).arg =~= Seq::<char>::empty(),
        !flush_arg(st).has,
{
    assert(ws.drop_last().push(ws.last()) =~= ws);
    ws.drop_last().lemma_filter_push(ws.last(), nonempty_word());
}

proof fn lemma_end_command_plain(p: Seq<char>, st: LexState)
    requires
        reads_plain(p, st),
    ensures
        end_command(st).cmds == commands_of(split_by(p, semicolon())),
        end_command(st).cur =~= Seq::<Seq<char>>::empty(),
        end_command(st).arg =~= Seq::<char>::empty(),
        !end_command(st).has,
{
    let segs = split_by(p, semicolon());
    lemma_split_by_len(p, semicolon());
    let l = segs.last();
    let ws = split_by(l, blank());
    lemma_split_by_len(l, blank());
    lemma_flush_plain(st, ws);
    assert(segs.drop_last().push(l) =~= segs);
    let m = segs.drop_last().map_values(|c: Seq<char>| words_of(c));
    assert(segs.map_values(|c: Seq<char>| words_of(c)) =~= m.push(words_of(l)));
    m.lemma_filter_push(words_of(l), nonempty_command());
}

proof fn lemma_plain_step(p: Seq<char>, c: char, st: LexState)
    requires
        reads_plain(p, st),
        is_plain_char(c),
    ensures
        reads_plain(
            p.push(c),
            if c == ' ' || c == '\t' {
                flush_arg(st)
            } else if c == ';' {
                end_command(st)
            } else {
                with_text(st, seq![c])
            },
        ),
{
    let segs = split_by(p, semicolon());
    lemma_split_by_len(p, semicolon());
    let l = segs.last();
    let ws = split_by(l, blank());
    lemma_split_by_len(l, blank());
    let q = p.push(c);
    assert(q.drop_last() =~= p);
    assert(q.last() == c);
    let segs2 = split_by(q, semicolon());
    if c == ';' {
        assert(segs2 == segs.push(Seq::<char>::empty()));
        assert(segs2.drop_last() =~= segs);
        lemma_end_command_plain(p, st);
        assert(segs2.last() == Seq::<char>::empty());
        assert(split_by(Seq::<char>::empty(), blank()) == seq![Seq::<char>::empty()]);
        assert(seq![Seq::<char>::empty()].drop_last() =~= Seq::<Seq<char>>::empty());
        lemma_filter_empty(nonempty_word());
    } else {
        assert(segs2 == segs.drop_last().push(l.push(c)));
        assert(segs2.drop_last() =~= segs.drop_last());
        assert(segs2.last() == l.push(c));
        let lc = l.push(c);
        assert(lc.drop_last() =~= l);
        assert(lc.last() == c);
        let ws2 = split_by(lc, blank());
        if c == ' ' || c == '\t' {
            assert(ws2 == ws.push(Seq::<char>::empty()));
            assert(ws2.drop_last() =~= ws);
            lemma_flush_plain(st, ws);
        } else {
            assert(ws2 == ws.drop_last().push(ws.last().push(c)));
            assert(ws2.drop_last() =~= ws.drop_last());
            assert(with_text(st, seq![c]).arg =~= ws.last().push(c));
        }
    }
}

proof fn lemma_plain_state_reads(a: Seq<char>, i: int, st: LexState)
    requires
        is_plain(a),
        0 <= i <= a.len(),
        reads_plain(a.take(i), st),
    ensures
        reads_plain(a, plain_state(a, i, st)),
    decreases a.len() - i,
{
    if i < a.len() {
        assert(is_plain_char(a[i]));
        lemma_plain_step(a.take(i), a[i], st);
        assert(a.take(i).push(a[i]) =~= a.take(i + 1));
        let c = a[i];
        if c == ' ' || c == '\t' {
            lemma_plain_state_reads(a, i + 1, flush_arg(st));
        } else if c == ';' {
            lemma_plain_state_reads(a, i + 1, end_command(st));
        } else {
            lemma_plain_state_reads(a, i + 1, with_text(st, seq![c]));
        }
    } else {
        assert(a.take(i) =~= a);
    }
}

/// Law: a line with no quote, backslash or `$` splits on `;` into commands
/// and each command on spaces and tabs into words; empty words and empty
/// commands are dropped.
pub proof fn law_plain_line_splits(s: Seq<char>, env: Seq<(String, String)>)
    requires
        is_plain(s),
    ensures
        lex(s, env) == Ok::<Seq<Seq<Seq<char>>>, LexError>(plain_commands(s)),
{
    let init = initial_state();
    // The empty text is read by the initial state.
    assert(s.take(0) =~= Seq::<char>::empty());
    assert(split_by(Seq::<char>::empty(), semicolon()) == seq![Seq::<char>::empty()]);
    assert(split_by(Seq::<char>::empty(), blank()) == seq![Seq::<char>::empty()]);
    assert(seq![Seq::<char>::empty()].drop_last() =~= Seq::<Seq<char>>::empty());
    lemma_filter_empty(nonempty_word());
    lemma_filter_empty(nonempty_command());
    assert(Seq::<Seq<char>>::empty().map_values(|c: Seq<char>| words_of(c)) =~= Seq::<Seq<Seq<char>>>::empty());
    assert(reads_plain(s.take(0), init));
    lemma_plain_state_reads(s, 0, init);
    let ps = plain_state(s, 0, init);
    lemma_plain_prefix(s, Seq::empty(), 0, env, init);
    assert(s + Seq::<char>::empty() =~= s);
    lemma_end_command_plain(s, ps);
}

/// Law: a variable that no pair of the environment names expands to
/// nothing.
pub proof fn law_unset_variable_is_empty(env: Seq<(String, String)>, name: Seq<char>)
    requires
        forall|k: int| 0 <= k < env.len() ==> (#[trigger] env[k]).0@ != name,
    ensures
        env_lookup(env, name) == Seq::<char>::empty(),
    decreases env.len(),
{
    if env.len() > 0 {
        assert(env[0].0@ != name);
        assert forall|k: int| 0 <= k < env.drop_first().len() implies (#[trigger] env.drop_first()[k]).0@ != name by {
            assert(env.drop_first()[k] == env[k + 1]);
        }
        law_unset_variable_is_empty(env.drop_first(), name);
    }
}

/// Law: a variable stands for the whole value of the first pair of the
/// environment that names it.
pub proof fn law_first_binding_wins(env: Seq<(String, String)>, name: Seq<char>, k: int)
    requires
        0 <= k < env.len(),
        env[k].0@ == name,
        forall|j: int| 0 <= j < k ==> (#[trigger] env[j]).0@ != name,
    ensures
        env_lookup(env, name) == env[k].1@,
    decreases k,
{
    if k > 0 {
        assert(env[0].0@ != name);
        let t = env.drop_first();
        assert(t[k - 1] == env[k]);
        assert forall|j: int| 0 <= j < k - 1 implies (#[trigger] t[j]).0@ != name by {
            assert(t[j] == env[j + 1]);
        }
        law_first_binding_wins(t, name, k - 1);
    }
}

proof fn lemma_bare_name_to_end(s: Seq<char>, i: int)
    requires
        0 <= i <= s.len(),
        forall|k: int| i <= k < s.len() ==> is_name_char(#[trigger] s[k]),
    ensures
        bare_name_end(s, i) == s.len(),
    decreases s.len() - i,
{
    if i < s.len() {
        lemma_bare_name_to_end(s, i + 1);
    }
}

/// Law: `$NAME`, for a name of letters, digits and `_`, is one argument:
/// the value of `NAME` in the environment (empty when it is unset).
pub proof fn law_bare_variable(name: Seq<char>, env: Seq<(String, String)>)
    requires
        name.len() > 0,
        forall|k: int| 0 <= k < name.len() ==> is_name_char(#[trigger] name[k]),
    ensures
        lex(seq!['$'] + name, env) == Ok::<Seq<Seq<Seq<char>>>, LexError>(seq![seq![env_lookup(env, name)]]),
{
    let s = seq!['$'] + name;
    assert forall|k: int| 1 <= k < s.len() implies is_name_char(#[trigger] s[k]) by {
        assert(s[k] == name[k - 1]);
    }
    lemma_bare_name_to_end(s, 1);
    assert(s[1] == name[0]);
    assert(s.subrange(1, s.len() as int) =~= name);
    let v = env_lookup(env, name);
    assert(expansion(s, 1, env) == (v, s.len() as int));
    let st = with_text(initial_state(), v);
    assert(st.arg =~= v);
    assert(lex_from(s, s.len() as int, env, st) == Ok::<Seq<Seq<Seq<char>>>, LexError>(end_command(st).cmds));
    assert(end_command(st).cmds =~= seq![seq![v]]) by {
        assert(flush_arg(st).cur =~= seq![v]);
    }
}

/// Law: outside quotes a backslash makes the next character literal, even
/// a space, a `;`, a quote or a `$`.
pub proof fn law_backslash_escapes(c: char, env: Seq<(String, String)>)
    ensures
        lex(seq!['\\', c], env) == Ok::<Seq<Seq<Seq<char>>>, LexError>(seq![seq![seq![c]]]),
{
    let s = seq!['\\', c];
    let st = with_text(initial_state(), seq![c]);
    assert(st.arg =~= seq![c]);
    assert(lex_from(s, 2, env, st) == Ok::<Seq<Seq<Seq<char>>>, LexError>(end_command(st).cmds));
    assert(end_command(st).cmds =~= seq![seq![seq![c]]]) by {
        assert(flush_arg(st).cur =~= seq![seq![c]]);
    }
}

/// Law: inside double quotes a backslash escapes `"`, `\` and `$` (the
/// backslash goes) and is kept before any other character.
pub proof fn law_double_quote_escapes(n: char, env: Seq<(String, String)>)
    ensures
        lex(seq!['"', '\\', n, '"'], env) == Ok::<Seq<Seq<Seq<char>>>, LexError>(
            seq![seq![if n == '"' || n == '\\' || n == '$' { seq![n] } else { seq!['\\', n] }]],
        ),
{
    let s = seq!['"', '\\', n, '"'];
    let piece = if n == '"' || n == '\\' || n == '$' { seq![n] } else { seq!['\\', n] };
    assert(Seq::<char>::empty() + piece =~= piece);
    assert(double_quoted(s, 3, env, piece) == Some((piece, 4int)));
    assert(double_quoted(s, 1, env, Seq::empty()) == Some((piece, 4int)));
    let st = with_text(initial_state(), piece);
    assert(st.arg =~= piece);
    assert(lex_from(s, 4, env, st) == Ok::<Seq<Seq<Seq<char>>>, LexError>(end_command(st).cmds));
    assert(end_command(st).cmds =~= seq![seq![piece]]) by {
        assert(flush_arg(st).cur =~= seq![piece]);
    }
}

/// Law: a `$` followed by nothing that can start a name stays a literal
/// `$`.
pub proof fn law_lone_dollar(env: Seq<(String, String)>)
    ensures
        lex(seq!['$'], env) == Ok::<Seq<Seq<Seq<char>>>, LexError>(seq![seq![seq!['$']]]),
{
    let s = seq!['$'];
    assert(bare_name_end(s, 1) == 1);
    assert(expansion(s, 1, env) == (seq!['$'], 1int));
    let st = with_text(initial_state(), seq!['$']);
    assert(st.arg =~= seq!['$']);
    assert(s[0] == '$');
    assert(lex_from(s, 0, env, initial_state()) == lex_from(s, 1, env, st));
    assert(lex_from(s, 1, env, st) == Ok::<Seq<Seq<Seq<char>>>, LexError>(end_command(st).cmds));
    assert(end_command(st).cmds =~= seq![seq![seq!['$']]]) by {
        assert(flush_arg(st).cur =~= seq![seq!['$']]);
    }
}

} // verus!
