//! The built-in commands: how a command line is routed, and the decisions
//! each command makes before and between its file operations.
use vstd::prelude::*;
use crate::num::{parse_i32, spec_parse_i32};

pub mod cd;
pub mod cp;
pub mod echo;
pub mod help;
pub mod ls;
pub mod mkdir;
pub mod mv;
pub mod rm;
pub mod transfer;

verus! {

/// What the shell loop should do after a command runs.
#[derive(Debug, Clone, Copy, PartialEq, Eq, Structural)]
pub enum Flow {
    /// Continue the read-eval loop.
    Continue,
    /// Terminate the shell with the given status code.
    Exit(i32),
}

/// The built-in commands other than `exit`.
#[derive(Debug, Clone, Copy, PartialEq, Eq, Structural)]
pub enum Builtin {
    Echo,
    Cd,
    Pwd,
    Ls,
    Cat,
    Cp,
    Rm,
    Mv,
    Mkdir,
    Help,
}

/// Where a command line goes.
#[derive(Debug, PartialEq, Eq)]
pub enum Route {
    /// `exit`: leave the loop as the flow says.
    Leave(Flow),
    /// Run a built-in on the remaining arguments.
    Run(Builtin),
    /// No such command; the message to print.
    NotFound(String),
}

/// The exit status `exit` uses: its first argument as an `i32`, else 0.
pub open spec fn exit_code(args: Seq<String>) -> i32 {
    if args.len() == 0 {
        0
    } else {
        match spec_parse_i32(args[0]@) {
            Some(c) => c,
            None => 0,
        }
    }
}

/// `exit [code]`: leave the shell, optionally with a status code.
pub fn exit(args: &[String]) -> (res: Flow)
    ensures
        res == Flow::Exit(exit_code(args@)),
{
    let code = if args.len() == 0 {
        0
    } else {
        match parse_i32(args[0].as_str()) {
            Some(c) => c,
            None => 0,
        }
    };
    Flow::Exit(code)
}

/// The built-in a command name stands for.
pub open spec fn builtin_named(name: Seq<char>) -> Option<Builtin> {
    if name == "echo"@ {
        Some(Builtin::Echo)
    } else if name == "cd"@ {
        Some(Builtin::Cd)
    } else if name == "pwd"@ {
        Some(Builtin::Pwd)
    } else if name == "ls"@ {
        Some(Builtin::Ls)
    } else if name == "cat"@ {
        Some(Builtin::Cat)
    } else if name == "cp"@ {
        Some(Builtin::Cp)
    } else if name == "rm"@ {
        Some(Builtin::Rm)
    } else if name == "mv"@ {
        Some(Builtin::Mv)
    } else if name == "mkdir"@ {
        Some(Builtin::Mkdir)
    } else if name == "help"@ {
        Some(Builtin::Help)
    } else {
        None
    }
}

/// The message for an unknown command.
pub open spec fn not_found_msg(name: Seq<char>) -> Seq<char> {
    "Command '"@ + name + "' not found"@
}

/// A route with its message as a character sequence.
pub open spec fn route_matches(r: Route, args: Seq<String>) -> bool {
    let name = args[0]@;
    if name == "exit"@ {
        r == Route::Leave(Flow::Exit(exit_code(args.drop_first())))
    } else {
        match builtin_named(name) {
            Some(b) => r == Route::Run(b),
            None => r matches Route::NotFound(m) && m@ == not_found_msg(name),
        }
    }
}

fn str_eq(a: &str, b: &str) -> (res: bool)
    ensures
        res == (a@ == b@),
{
    let x = crate::text::chars_of(a);
    let y = crate::text::chars_of(b);
    if x.len() != y.len() {
        return false;
    }
    let mut k: usize = 0;
    while k < x.len()
        invariant
            x.len() == y.len(),
            x@ == a@,
            y@ == b@,
            k <= x.len(),
            forall|m: int| 0 <= m < k ==> x@[m] == y@[m],
        decreases x.len() - k,
    {
        if x[k] != y[k] {
            assert(x@[k as int] != y@[k as int]);
            return false;
        }
        k = k + 1;
    }
    assert(x@ =~= y@);
    true
}

/// Routes a parsed command (name + arguments) to `exit`, a built-in, or the
/// "not found" error.
pub fn route(args: &[String]) -> (res: Route)
    requires
        args.len() > 0,
    ensures
        route_matches(res, args@),
{
    let name = args[0].as_str();
    if str_eq(name, "exit") {
        let rest = crate::text::slice_tail(args);
        return Route::Leave(exit(rest.as_slice()));
    }
    if str_eq(name, "echo") {
        Route::Run(Builtin::Echo)
    } else if str_eq(name, "cd") {
        Route::Run(Builtin::Cd)
    } else if str_eq(name, "pwd") {
        Route::Run(Builtin::Pwd)
    } else if str_eq(name, "ls") {
        Route::Run(Builtin::Ls)
    } else if str_eq(name, "cat") {
        Route::Run(Builtin::Cat)
    } else if str_eq(name, "cp") {
        Route::Run(Builtin::Cp)
    } else if str_eq(name, "rm") {
        Route::Run(Builtin::Rm)
    } else if str_eq(name, "mv") {
        Route::Run(Builtin::Mv)
    } else if str_eq(name, "mkdir") {
        Route::Run(Builtin::Mkdir)
    } else if str_eq(name, "help") {
        Route::Run(Builtin::Help)
    } else {
        let mut m = String::from_str("Command '");
        m.append(name);
        m.append("' not found");
        Route::NotFound(m)
    }
}

/// The outcome of a command that works through several operands: the first
/// error met, else success.
pub open spec fn first_error(results: Seq<Result<(), String>>) -> Result<(), Seq<char>>
    decreases results.len(),
{
    if results.len() == 0 {
        Ok(())
    } else {
        match results[0] {
            Err(m) => Err(m@),
            Ok(_) => first_error(results.drop_first()),
        }
    }
}

proof fn lemma_first_error_push(rs: Seq<Result<(), String>>, r: Result<(), String>)
    ensures
        first_error(rs.push(r)) == (match first_error(rs) {
            Err(m) => Err(m),
            Ok(_) => match r {
                Err(m) => Err(m@),
                Ok(_) => Ok(()),
            },
        }),
    decreases rs.len(),
{
    if rs.len() > 0 {
        assert(rs.push(r).drop_first() =~= rs.drop_first().push(r));
        assert(rs.push(r)[0] == rs[0]);
        lemma_first_error_push(rs.drop_first(), r);
    } else {
        assert(rs.push(r).drop_first() =~= Seq::<Result<(), String>>::empty());
        assert(rs.push(r)[0] == r);
        assert(first_error(Seq::<Result<(), String>>::empty()) == Ok::<(), Seq<char>>(()));
    }
}

/// Law: the names of the built-ins, each standing for its own command.
pub proof fn law_builtin_names()
    ensures
        builtin_named(seq!['e', 'c', 'h', 'o']) == Some(Builtin::Echo),
        builtin_named(seq!['c', 'd']) == Some(Builtin::Cd),
        builtin_named(seq!['p', 'w', 'd']) == Some(Builtin::Pwd),
        builtin_named(seq!['l', 's']) == Some(Builtin::Ls),
        builtin_named(seq!['c', 'a', 't']) == Some(Builtin::Cat),
        builtin_named(seq!['c', 'p']) == Some(Builtin::Cp),
        builtin_named(seq!['r', 'm']) == Some(Builtin::Rm),
        builtin_named(seq!['m', 'v']) == Some(Builtin::Mv),
        builtin_named(seq!['m', 'k', 'd', 'i', 'r']) == Some(Builtin::Mkdir),
        builtin_named(seq!['h', 'e', 'l', 'p']) == Some(Builtin::Help),
        builtin_named(seq!['e', 'x', 'i', 't']) is None,
        builtin_named(Seq::<char>::empty()) is None,
{
    reveal_strlit("echo");
    reveal_strlit("cd");
    reveal_strlit("pwd");
    reveal_strlit("ls");
    reveal_strlit("cat");
    reveal_strlit("cp");
    reveal_strlit("rm");
    reveal_strlit("mv");
    reveal_strlit("mkdir");
    reveal_strlit("help");
    assert(seq!['e', 'c', 'h', 'o'] =~= "echo"@);
    assert(seq!['c', 'd'] =~= "cd"@);
    assert(seq!['p', 'w', 'd'] =~= "pwd"@);
    assert(seq!['l', 's'] =~= "ls"@);
    assert(seq!['c', 'a', 't'] =~= "cat"@);
    assert(seq!['c', 'p'] =~= "cp"@);
    assert(seq!['r', 'm'] =~= "rm"@);
    assert(seq!['m', 'v'] =~= "mv"@);
    assert(seq!['m', 'k', 'd', 'i', 'r'] =~= "mkdir"@);
    assert(seq!['h', 'e', 'l', 'p'] =~= "help"@);
}

/// Law: the outcome is success exactly when every result is, and otherwise
/// the error of the first failing result: failures after it change
/// nothing.
pub proof fn law_first_error_is_first(rs: Seq<Result<(), String>>)
    ensures
        (first_error(rs) is Ok) <==> (forall|k: int| 0 <= k < rs.len() ==> (#[trigger] rs[k]) is Ok),
        first_error(rs) is Err ==> exists|k: int|
            0 <= k < rs.len() && (#[trigger] rs[k]) is Err && first_error(rs) == Err::<(), Seq<char>>(rs[k]->Err_0@)
                && forall|j: int| 0 <= j < k ==> rs[j] is Ok,
    decreases rs.len(),
{
    if rs.len() > 0 {
        let t = rs.drop_first();
        law_first_error_is_first(t);
        assert forall|k: int| 0 <= k < t.len() implies t[k] == rs[k + 1] by {}
        if rs[0] is Ok {
            if first_error(rs) is Err {
                let k = choose|k: int|
                    0 <= k < t.len() && (#[trigger] t[k]) is Err && first_error(t) == Err::<(), Seq<char>>(t[k]->Err_0@)
                        && forall|j: int| 0 <= j < k ==> t[j] is Ok;
                assert(rs[k + 1] is Err);
                assert forall|j: int| 0 <= j < k + 1 implies rs[j] is Ok by {
                    if j > 0 {
                        assert(rs[j] == t[j - 1]);
                    }
                }
            } else {
                assert forall|k: int| 0 <= k < rs.len() implies (#[trigger] rs[k]) is Ok by {
                    if k > 0 {
                        assert(rs[k] == t[k - 1]);
                    }
                }
            }
        }
    }
}

/// A command working through its operands one at a time, in the order
/// given: each operand is handed out once, its result recorded, and a
/// failure does not stop the rest. At the end the first error, if any, is
/// the command's result.
pub struct Batch<T> {
    items: Vec<T>,
    done: usize,
    first_err: Option<String>,
    results: Ghost<Seq<Result<(), String>>>,
}

impl<T> Batch<T> {
    /// The operands, in order.
    pub closed spec fn items_view(&self) -> Seq<T> {
        self.items@
    }

    /// How many operands have been handled.
    pub closed spec fn done_count(&self) -> nat {
        self.done as nat
    }

    /// The results recorded so far, one per handled operand, in order.
    pub closed spec fn recorded(&self) -> Seq<Result<(), String>> {
        self.results@
    }

    /// The batch is consistent: no more results than operands, and the
    /// error kept is the first recorded one.
    pub closed spec fn wf(&self) -> bool {
        &&& self.done <= self.items.len()
        &&& self.results@.len() == self.done
        &&& match self.first_err {
            None => first_error(self.results@) == Ok::<(), Seq<char>>(()),
            Some(m) => first_error(self.results@) == Err::<(), Seq<char>>(m@),
        }
    }

    /// A batch over `items`, none handled yet.
    pub fn new(items: Vec<T>) -> (res: Batch<T>)
        ensures
            res.wf(),
            res.items_view() == items@,
            res.done_count() == 0,
            res.recorded() == Seq::<Result<(), String>>::empty(),
    {
        Batch { items, done: 0, first_err: None, results: Ghost(Seq::empty()) }
    }

    /// The next operand to handle, or `None` when all have been.
    pub fn next_item(&self) -> (res: Option<&T>)
        requires
            self.wf(),
        ensures
            self.done_count() < self.items_view().len() ==> res == Some(&self.items_view()[self.done_count() as int]),
            self.done_count() >= self.items_view().len() ==> res is None,
    {
        if self.done < self.items.len() {
            Some(&self.items[self.done])
        } else {
            None
        }
    }

    /// Records the result of the operand just handed out.
    pub fn record(&mut self, r: Result<(), String>)
        requires
            old(self).wf(),
            old(self).done_count() < old(self).items_view().len(),
        ensures
            final(self).wf(),
            final(self).items_view() == old(self).items_view(),
            final(self).done_count() == old(self).done_count() + 1,
            final(self).recorded() == old(self).recorded().push(r),
    {
        proof {
            lemma_first_error_push(self.results@, r);
        }
        if self.first_err.is_none() {
            match &r {
                Err(m) => {
                    self.first_err = Some(m.clone());
                },
                Ok(_) => {},
            }
        }
        self.results = Ghost(self.results@.push(r));
        self.done = self.done + 1;
    }

    /// The command's result once every operand is handled: the first error
    /// recorded, else success.
    pub fn finish(self) -> (res: Result<(), String>)
        requires
            self.wf(),
            self.done_count() == self.items_view().len(),
        ensures
            match res {
                Ok(_) => first_error(self.recorded()) == Ok::<(), Seq<char>>(()),
                Err(m) => first_error(self.recorded()) == Err::<(), Seq<char>>(m@),
            },
    {
        match self.first_err {
            Some(m) => Err(m),
            None => Ok(()),
        }
    }
}

} // verus!
