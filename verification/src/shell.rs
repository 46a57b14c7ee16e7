//! The read-eval loop's decisions: the prompt, and what to do with a line
//! that was read.
use vstd::prelude::*;
use crate::lexer::{commands_view, lex, message_text, parse_line};
use crate::text::{chars_of, has_prefix, occurs_at_exec, string_of_range};

verus! {

/// Whether `cwd` is the directory `home` itself or lies under it: `home` is
/// a prefix of `cwd` that ends at a path separator of `cwd` or at its end.
pub open spec fn under_home(cwd: Seq<char>, home: Seq<char>) -> bool {
    &&& home.len() > 0
    &&& has_prefix(cwd, home)
    &&& (cwd.len() == home.len() || cwd[home.len() as int] == '/')
}

/// The prompt: the current directory with `$HOME` abbreviated to `~` (when
/// `$HOME` is set, non-empty, and the directory is `$HOME` or lies under
/// it), then ` $ `.
pub open spec fn prompt_text(cwd: Seq<char>, home: Option<Seq<char>>) -> Seq<char> {
    let shown = match home {
        Some(h) => if under_home(cwd, h) {
            "~"@ + cwd.skip(h.len() as int)
        } else {
            cwd
        },
        None => cwd,
    };
    shown + " $ "@
}

/// Builds the prompt for the current directory `cwd` and `$HOME`.
pub fn prompt(cwd: &str, home: &Option<String>) -> (res: String)
    ensures
        res@ == prompt_text(cwd@, match home {
            Some(h) => Some(h@),
            None => None,
        }),
{
    let mut shown = String::new();
    let mut abbreviated = false;
    if let Some(h) = home {
        let c = chars_of(cwd);
        let hc = chars_of(h.as_str());
        if hc.len() > 0 && occurs_at_exec(&c, &hc, 0) && (c.len() == hc.len() || c[hc.len()]
            == '/') {
            shown = String::from_str("~");
            let rest = string_of_range(&c, hc.len(), c.len());
            assert(c@.subrange(hc.len() as int, c@.len() as int) =~= cwd@.skip(h@.len() as int));
            shown.append(rest.as_str());
            abbreviated = true;
        }
    }
    if !abbreviated {
        shown = String::from_str(cwd);
    }
    shown.append(" $ ");
    shown
}

/// Characters with the Unicode `White_Space` property (std's
/// `char::is_whitespace`).
pub open spec fn is_unicode_whitespace(c: char) -> bool {
    ||| ('\u{9}' <= c && c <= '\u{d}')
    ||| c == ' '
    ||| c == '\u{85}'
    ||| c == '\u{a0}'
    ||| c == '\u{1680}'
    ||| ('\u{2000}' <= c && c <= '\u{200a}')
    ||| c == '\u{2028}'
    ||| c == '\u{2029}'
    ||| c == '\u{202f}'
    ||| c == '\u{205f}'
    ||| c == '\u{3000}'
}

fn is_unicode_whitespace_exec(c: char) -> (res: bool)
    ensures
        res == is_unicode_whitespace(c),
{
    ('\u{9}' <= c && c <= '\u{d}') || c == ' ' || c == '\u{85}' || c == '\u{a0}' || c == '\u{1680}' || (
    '\u{2000}' <= c && c <= '\u{200a}') || c == '\u{2028}' || c == '\u{2029}' || c == '\u{202f}' || c
        == '\u{205f}' || c == '\u{3000}'
}

/// A line without its trailing newlines.
pub open spec fn strip_newlines(s: Seq<char>) -> Seq<char>
    decreases s.len(),
{
    if s.len() > 0 && s.last() == '\n' {
        strip_newlines(s.drop_last())
    } else {
        s
    }
}

/// Nothing but whitespace.
pub open spec fn is_blank(s: Seq<char>) -> bool {
    forall|k: int| 0 <= k < s.len() ==> #[trigger] is_unicode_whitespace(s[k])
}

/// What the loop does with a line.
#[derive(Debug, PartialEq, Eq)]
pub enum LineAction {
    /// A blank line: prompt again.
    Skip,
    /// The line cannot be parsed: print this message and prompt again.
    Report(String),
    /// Run these commands in order.
    Run(Vec<Vec<String>>),
}

/// What `interpret` decides for a line read from the terminal.
pub open spec fn line_action_matches(a: LineAction, line: Seq<char>, env: Seq<(String, String)>) -> bool {
    let t = strip_newlines(line);
    if is_blank(t) {
        a == LineAction::Skip
    } else {
        match lex(t, env) {
            Err(e) => a matches LineAction::Report(m) && m@ == message_text(e),
            Ok(cmds) => a matches LineAction::Run(v) && commands_view(v@) == cmds,
        }
    }
}

/// Decides what to do with a line read from the terminal: trailing newlines
/// are dropped; a blank line is skipped; otherwise it is parsed.
pub fn interpret(line: &str, env: &[(String, String)]) -> (res: LineAction)
    ensures
        line_action_matches(res, line@, env@),
{
    let c = chars_of(line);
    let mut end: usize = c.len();
    assert(c@.subrange(0, end as int) =~= c@);
    while end > 0 && c[end - 1] == '\n'
        invariant
            end <= c.len(),
            c@ == line@,
            strip_newlines(line@) == strip_newlines(c@.subrange(0, end as int)),
        decreases end,
    {
        assert(c@.subrange(0, end as int).drop_last() =~= c@.subrange(0, end - 1));
        end = end - 1;
    }
    let ghost t = c@.subrange(0, end as int);
    assert(strip_newlines(line@) == t);
    let mut k: usize = 0;
    while k < end && is_unicode_whitespace_exec(c[k])
        invariant
            k <= end <= c.len(),
            t == c@.subrange(0, end as int),
            forall|m: int| 0 <= m < k ==> #[trigger] is_unicode_whitespace(t[m]),
        decreases end - k,
    {
        k = k + 1;
    }
    if k == end {
        return LineAction::Skip;
    }
    assert(!is_unicode_whitespace(t[k as int]));
    let trimmed = string_of_range(&c, 0, end);
    match parse_line(trimmed.as_str(), env) {
        Ok(cmds) => LineAction::Run(cmds),
        Err(e) => LineAction::Report(e.message()),
    }
}

/// The prompt's end.
pub open spec fn prompt_end() -> Seq<char> {
    seq![' ', '$', ' ']
}

/// Law: in `$HOME` itself the prompt is `~ $ `, and below it `~/` and the
/// rest of the path.
pub proof fn law_prompt_under_home(home: Seq<char>, rest: Seq<char>)
    requires
        home.len() > 0,
    ensures
        prompt_text(home, Some(home)) == seq!['~'] + prompt_end(),
        prompt_text(home + seq!['/'] + rest, Some(home)) == seq!['~', '/'] + rest + prompt_end(),
{
    reveal_strlit("~");
    reveal_strlit(" $ ");
    assert(home.subrange(0, home.len() as int) =~= home);
    assert(home.skip(home.len() as int) =~= Seq::<char>::empty());
    let c = home + seq!['/'] + rest;
    assert(c.subrange(0, home.len() as int) =~= home);
    assert(c[home.len() as int] == '/');
    assert(c.skip(home.len() as int) =~= seq!['/'] + rest);
}

/// Law: a directory that is not `$HOME` and does not lie below it, or any
/// directory when `$HOME` is unset or empty, is shown whole.
pub proof fn law_prompt_elsewhere(cwd: Seq<char>, home: Option<Seq<char>>)
    requires
        home matches Some(h) ==> !(h.len() > 0 && cwd.len() >= h.len() && cwd.take(h.len() as int) == h && (cwd.len()
            == h.len() || cwd[h.len() as int] == '/')),
    ensures
        prompt_text(cwd, home) == cwd + prompt_end(),
{
    reveal_strlit(" $ ");
    assert(" $ "@ =~= prompt_end());
    if let Some(h) = home {
        if under_home(cwd, h) {
            assert(cwd.subrange(0, h.len() as int) =~= cwd.take(h.len() as int));
        }
    }
}

/// Law: trailing newlines come off a line, and nothing else does.
pub proof fn law_strip_newlines(s: Seq<char>, n: nat)
    requires
        s.len() == 0 || s.last() != '\n',
    ensures
        strip_newlines(s + Seq::new(n, |_k: int| '\n')) == s,
    decreases n,
{
    if n == 0 {
        assert(s + Seq::new(0, |_k: int| '\n') =~= s);
    } else {
        let t = s + Seq::new(n, |_k: int| '\n');
        assert(t.last() == '\n');
        assert(t.drop_last() =~= s + Seq::new((n - 1) as nat, |_k: int| '\n'));
        law_strip_newlines(s, (n - 1) as nat);
    }
}

/// Law: spaces, tabs, line and page breaks, and the Unicode spaces such as
/// the no-break and ideographic spaces count as whitespace; letters,
/// digits and punctuation do not.
pub proof fn law_whitespace(c: char)
    ensures
        c == ' ' || c == '\t' || c == '\n' || c == '\r' || c == '\u{b}' || c == '\u{c}' || c == '\u{a0}' || c
            == '\u{2003}' || c == '\u{3000}' ==> is_unicode_whitespace(c),
        ('a' <= c && c <= 'z') || ('A' <= c && c <= 'Z') || ('0' <= c && c <= '9') || c == ';' || c == '_' || c
            == '\u{0}' ==> !is_unicode_whitespace(c),
{
}

/// Law: a line that holds only whitespace and newlines is skipped.
pub proof fn law_blank_line_skipped(line: Seq<char>, env: Seq<(String, String)>, a: LineAction)
    requires
        forall|k: int| 0 <= k < line.len() ==> is_unicode_whitespace(#[trigger] line[k]),
        line_action_matches(a, line, env),
    ensures
        a == LineAction::Skip,
{
    lemma_strip_newlines_prefix(line);
}

proof fn lemma_strip_newlines_prefix(s: Seq<char>)
    ensures
        strip_newlines(s).len() <= s.len(),
        forall|k: int| 0 <= k < strip_newlines(s).len() ==> #[trigger] strip_newlines(s)[k] == s[k],
    decreases s.len(),
{
    if s.len() > 0 && s.last() == '\n' {
        lemma_strip_newlines_prefix(s.drop_last());
    }
}

} // verus!
