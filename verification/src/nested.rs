use vstd::prelude::*;
use crate::instructions::{Instruction, InstrView, instrs_view, lemma_instrs_view_len, lemma_instrs_view_index, lemma_simple_view};
use crate::value::{Value, ValueView, names_view, lemma_values_view_len, List, copy_instructions};
use crate::machine::{VM, MachineView, Effect, lemma_last_view};
use crate::bytecode::{insert_all, table_view, insert_function, FunctionTable};
use crate::parser::{Parser, lex, parse_all_at};
use crate::ast::SourceView;
use crate::compiler::Compiler;
use crate::errors::RuntimeError;
use crate::text::{owned, text3, push_str, same_text};

verus! {
// ---------------------------------------------------------------------------
// Code run from inside the machine

/// What follows when code that `eval`, `load` or `require` runs comes to
/// its end: `eval` leaves an empty list when the stack is empty, `load` and
/// `require` push `true`, and `require` counts the module as loaded.
pub enum ThenView {
    Eval,
    Load,
    Require(Seq<char>),
}

pub enum Then {
    Eval,
    Load,
    Require(String),
}

pub open spec fn then_view(t: Then) -> ThenView {
    match t {
        Then::Eval => ThenView::Eval,
        Then::Load => ThenView::Load,
        Then::Require(name) => ThenView::Require(name@),
    }
}

/// Where to go on: the code and the instruction after the one that ran the
/// nested code, and what follows.
pub struct ResumeView {
    pub code: Seq<InstrView>,
    pub next: usize,
    pub sequel: ThenView,
}

pub struct Resume {
    pub code: Vec<Instruction>,
    pub next: usize,
    pub sequel: Then,
}

pub open spec fn resume_view(r: Resume) -> ResumeView {
    ResumeView { code: instrs_view(r.code@), next: r.next, sequel: then_view(r.sequel) }
}

pub open spec fn resumes_view(s: Seq<Resume>) -> Seq<ResumeView> {
    Seq::new(s.len(), |i: int| resume_view(s[i]))
}

/// The machine once the innermost nested code has ended.
pub open spec fn resume(m: MachineView) -> MachineView {
    let r = m.resumes.last();
    let back = MachineView { code: r.code, ip: r.next, halted: false, resumes: m.resumes.drop_last(), ..m };
    match r.sequel {
        ThenView::Eval => if back.stack.len() == 0 {
            back.with_stack(seq![ValueView::List(Seq::empty())])
        } else {
            back
        },
        ThenView::Load => back.with_stack(back.stack.push(ValueView::Boolean(true))),
        ThenView::Require(name) => {
            let pushed = back.with_stack(back.stack.push(ValueView::Boolean(true)));
            MachineView {
                modules: if back.modules.contains(name) { back.modules } else { back.modules.push(name) },
                ..pushed
            }
        },
    }
}

/// The parse of a source text, as `Parser::new(source).parse_all()` gives
/// it.
pub open spec fn parsed(source: Seq<char>) -> Result<Seq<SourceView>, Seq<char>> {
    parse_all_at(lex(source), 0, "<input>"@, Seq::empty()).0
}

/// The message when the text cannot be parsed; `path` is the file's, for
/// `load` and `require`.
pub open spec fn parse_failure(sequel: ThenView, path: Seq<char>, e: Seq<char>) -> Seq<char> {
    match sequel {
        ThenView::Eval => "'eval' failed to parse code: "@ + e,
        ThenView::Load => "'load' failed to parse '"@ + path + "': "@ + e,
        ThenView::Require(_) => "'require' failed to parse '"@ + path + "': "@ + e,
    }
}

/// How the message starts when the text cannot be compiled (the compiler's
/// message follows).
pub open spec fn compile_failure_start(sequel: ThenView, path: Seq<char>) -> Seq<char> {
    match sequel {
        ThenView::Eval => "'eval' failed to compile code: "@,
        ThenView::Load => "'load' failed to compile '"@ + path + "': "@,
        ThenView::Require(_) => "'require' failed to compile '"@ + path + "': "@,
    }
}

pub open spec fn starts_with(s: Seq<char>, start: Seq<char>) -> bool {
    start.len() <= s.len() && s.subrange(0, start.len() as int) == start
}

/// Whether `after` runs freshly compiled code on from `m`: the compiled
/// functions added (a later one replacing an earlier one of the same name),
/// the compiled main code (which ends in `Halt`) at its start, and where to
/// go on when it ends remembered.
pub open spec fn started(m: MachineView, sequel: ThenView, after: MachineView) -> bool {
    &&& after == MachineView {
        code: after.code,
        ip: 0,
        functions: after.functions,
        resumes: m.resumes.push(ResumeView { code: m.code, next: (m.ip + 1) as usize, sequel }),
        ..m
    }
    &&& exists|fs: Seq<(Seq<char>, Seq<InstrView>)>| #[trigger] insert_all(m.functions, fs) == after.functions
    &&& after.code.len() > 0
    &&& after.code.last() == InstrView::Simple(12)
}

/// What compiling and starting `source` comes to, from `m`: the parse error,
/// a compile error, or the compiled code running (`failed` is the error's
/// message, if any).
pub open spec fn compiled(
    m: MachineView,
    source: Seq<char>,
    sequel: ThenView,
    path: Seq<char>,
    failed: Option<Seq<char>>,
    after: MachineView,
) -> bool {
    match parsed(source) {
        Err(e) => failed == Some(parse_failure(sequel, path, e)),
        Ok(_) => match failed {
            Some(msg) => starts_with(msg, compile_failure_start(sequel, path)),
            None => started(m, sequel, after),
        },
    }
}

// ---------------------------------------------------------------------------
// Running it

/// The names of the table's functions.
fn function_names(t: &FunctionTable) -> (r: Vec<String>)
    ensures
        r@.len() == t@.len(),
{
    let mut r: Vec<String> = Vec::new();
    let mut k: usize = 0;
    while k < t.len()
        invariant
            k <= t@.len(),
            r@.len() == k,
        decreases t@.len() - k,
    {
        r.push(owned(t[k].0.as_str()));
        k = k + 1;
    }
    r
}

/// The names of the global variables.
fn global_names(g: &Vec<(String, Value)>) -> (r: Vec<String>)
    ensures
        r@.len() == g@.len(),
{
    let mut r: Vec<String> = Vec::new();
    let mut k: usize = 0;
    while k < g.len()
        invariant
            k <= g@.len(),
            r@.len() == k,
        decreases g@.len() - k,
    {
        r.push(owned(g[k].0.as_str()));
        k = k + 1;
    }
    r
}

/// Whether the name is among the names.
fn has_name(names: &Vec<String>, name: &String) -> (r: bool)
    ensures
        r == names_view(names@).contains(name@),
{
    let mut k: usize = 0;
    while k < names.len()
        invariant
            k <= names@.len(),
            forall|j: int| 0 <= j < k ==> names@[j]@ != name@,
        decreases names@.len() - k,
    {
        if same_text(names[k].as_str(), name.as_str()) {
            assert(names_view(names@)[k as int] == name@);
            return true;
        }
        k = k + 1;
    }
    proof {
        if names_view(names@).contains(name@) {
            let j = choose|j: int| 0 <= j < names_view(names@).len() && names_view(names@)[j] == name@;
            assert(names@[j]@ == name@);
        }
    }
    false
}

impl VM {
    /// Whether `require` has loaded the module of this name.
    pub fn is_module_loaded(&self, name: &String) -> (r: bool)
        ensures
            r == self.state().modules.contains(name@),
    {
        has_name(&self.loaded_modules, name)
    }

    /// Compiles `source` and sets the machine to run it, with the functions
    /// it defines added; when it ends the machine goes on after the current
    /// instruction (see `resume`). `known`: the compiler knows the machine's
    /// functions and globals.
    fn start_source(&mut self, source: &str, sequel: Then, path: &str, known: bool) -> (r: Result<(), String>)
        requires
            source@.len() < usize::MAX,
            old(self).instruction_pointer < old(self).current_bytecode@.len(),
        ensures
            compiled(
                old(self).state(),
                source@,
                then_view(sequel),
                path@,
                match r {
                    Ok(_) => None,
                    Err(msg) => Some(msg@),
                },
                final(self).state(),
            ),
            final(self).args == old(self).args,
            final(self).loaded_modules == old(self).loaded_modules,
    {
        let ghost m = self.state();
        let ghost tv = then_view(sequel);
        let code_len = self.current_bytecode.len();
        assert(self.instruction_pointer < code_len);
        let next = self.instruction_pointer + 1;
        let mut parser = Parser::new(source);
        let exprs = match parser.parse_all() {
            Ok(e) => e,
            Err(e) => {
                let mut msg = match &sequel {
                    Then::Eval => owned("'eval' failed to parse code: "),
                    Then::Load => text3("'load' failed to parse '", path, "': "),
                    Then::Require(_) => text3("'require' failed to parse '", path, "': "),
                };
                push_str(&mut msg, e.as_str());
                assert(msg@ == parse_failure(tv, path@, e@));
                return Err(msg);
            },
        };
        let mut compiler = Compiler::new();
        if known {
            let fnames = function_names(&self.functions);
            compiler.with_known_functions(&fnames);
            let gnames = global_names(&self.global_vars);
            compiler.with_known_globals(&gnames);
        }
        let out = compiler.compile_program(&exprs);
        let (functions, main) = match out {
            Ok(o) => o,
            Err(e) => {
                let mut msg = match &sequel {
                    Then::Eval => owned("'eval' failed to compile code: "),
                    Then::Load => text3("'load' failed to compile '", path, "': "),
                    Then::Require(_) => text3("'require' failed to compile '", path, "': "),
                };
                let ghost start = msg@;
                push_str(&mut msg, e.message.as_str());
                assert(msg@.subrange(0, start.len() as int) =~= start);
                return Err(msg);
            },
        };
        let ghost fv = table_view(functions@);
        let mut k: usize = 0;
        assert(fv.subrange(0, fv.len() as int) =~= fv);
        while k < functions.len()
            invariant
                k <= functions@.len(),
                fv == table_view(functions@),
                self.state() == (MachineView { functions: self.state().functions, ..m }),
                self.args == old(self).args,
                self.loaded_modules == old(self).loaded_modules,
                insert_all(self.state().functions, fv.subrange(k as int, fv.len() as int)) == insert_all(m.functions, fv),
            decreases functions@.len() - k,
        {
            let ghost before = self.state().functions;
            let ghost rest = fv.subrange(k as int, fv.len() as int);
            assert(rest.subrange(1, rest.len() as int) =~= fv.subrange(k + 1, fv.len() as int));
            insert_function(&mut self.functions, owned(functions[k].0.as_str()), copy_instructions(&functions[k].1));
            k = k + 1;
        }
        assert(fv.subrange(functions@.len() as int, fv.len() as int) =~= Seq::<(Seq<char>, Seq<InstrView>)>::empty());
        let ghost merged = self.state().functions;
        assert(insert_all(m.functions, fv) == merged);
        proof {
            lemma_instrs_view_len(main@);
            lemma_instrs_view_len(compiler.code());
            lemma_instrs_view_index(main@, main@.len() - 1);
            lemma_instrs_view_index(compiler.code(), compiler.code().len() - 1);
            lemma_simple_view(Instruction::Halt);
        }
        let saved = copy_instructions(&self.current_bytecode);
        self.current_bytecode = main;
        self.instruction_pointer = 0;
        let ghost rs = self.resumes@;
        self.resumes.push(Resume { code: saved, next, sequel });
        proof {
            assert(resumes_view(self.resumes@) =~= resumes_view(rs).push(ResumeView { code: m.code, next: next, sequel: tv }));
        }
        assert(self.state().code.last() == InstrView::Simple(12));
        assert(insert_all(m.functions, fv) == self.state().functions);
        assert(self.state() == (MachineView {
            code: self.state().code,
            ip: 0,
            functions: self.state().functions,
            resumes: m.resumes.push(ResumeView { code: m.code, next: (m.ip + 1) as usize, sequel: tv }),
            ..m
        }));
        Ok(())
    }

    /// Runs the code of a file that `load` or `require` asked for
    /// (`module`: the name under which `require` counts it, after it ran):
    /// the path gives way, and the source is compiled and run as `compiled`
    /// says.
    pub fn run_loaded(&mut self, source: &str, module: Option<String>) -> (r: Result<(), RuntimeError>)
        requires
            old(self).awaits_answer(),
            old(self).state().code[old(self).instruction_pointer as int] == InstrView::Simple(79)
                || old(self).state().code[old(self).instruction_pointer as int] == InstrView::Simple(80),
            (old(self).state().code[old(self).instruction_pointer as int] == InstrView::Simple(80)) == module is Some,
            old(self).state().stack.last() is String,
            source@.len() < usize::MAX,
        ensures
            compiled(
                old(self).state().with_stack(old(self).state().stack.drop_last()),
                source@,
                match module {
                    Some(name) => ThenView::Require(name@),
                    None => ThenView::Load,
                },
                old(self).state().stack.last()->String_0,
                match r {
                    Ok(_) => None,
                    Err(e) => Some(e.message@),
                },
                final(self).state(),
            ),
            final(self).args == old(self).args,
    {
        proof {
            lemma_values_view_len(self.value_stack@);
            lemma_instrs_view_len(self.current_bytecode@);
            lemma_last_view(self.value_stack@);
        }
        let len = self.value_stack.len();
        let path = match &self.value_stack[len - 1] {
            Value::String(p) => owned(p.as_str()),
            _ => owned(""),
        };
        self.pop_value();
        let sequel = match module {
            Some(name) => Then::Require(name),
            None => Then::Load,
        };
        match self.start_source(source, sequel, path.as_str(), false) {
            Ok(()) => Ok(()),
            Err(msg) => Err(RuntimeError::new(msg)),
        }
    }

    /// Goes on after nested code has ended.
    pub(crate) fn exec_resume(&mut self) -> (r: Result<Effect, RuntimeError>)
        requires
            old(self).resumes@.len() > 0,
        ensures
            r is Ok && r->Ok_0 is Continue,
            final(self).state() == resume(old(self).state()),
            final(self).args == old(self).args,
    {
        let ghost m = self.state();
        let ghost rs = self.resumes@;
        let r = self.resumes.pop().unwrap();
        proof {
            assert(resumes_view(self.resumes@) =~= resumes_view(rs).drop_last());
            assert(resumes_view(rs).last() == resume_view(r));
        }
        self.current_bytecode = r.code;
        self.instruction_pointer = r.next;
        self.halted = false;
        proof {
            lemma_values_view_len(self.value_stack@);
        }
        match r.sequel {
            Then::Eval => {
                if self.value_stack.len() == 0 {
                    self.push_value(Value::List(List::nil()));
                    assert(self.state().stack =~= seq![ValueView::List(Seq::empty())]);
                }
            },
            Then::Load => {
                self.push_value(Value::Boolean(true));
            },
            Then::Require(name) => {
                self.push_value(Value::Boolean(true));
                if !has_name(&self.loaded_modules, &name) {
                    let ghost mods = self.loaded_modules@;
                    self.loaded_modules.push(name);
                    assert(names_view(self.loaded_modules@) =~= names_view(mods).push(name@));
                }
            },
        }
        Ok(Effect::Continue)
    }

    /// Runs the string that `eval` asked for: it gives way, and is compiled
    /// (the compiler knowing the machine's functions and globals) and run as
    /// `compiled` says.
    pub fn run_eval(&mut self) -> (r: Result<(), RuntimeError>)
        requires
            old(self).awaits_answer(),
            old(self).state().code[old(self).instruction_pointer as int] == InstrView::Simple(92),
            old(self).state().stack.last() is String,
            old(self).state().stack.last()->String_0.len() < usize::MAX,
        ensures
            compiled(
                old(self).state().with_stack(old(self).state().stack.drop_last()),
                old(self).state().stack.last()->String_0,
                ThenView::Eval,
                Seq::empty(),
                match r {
                    Ok(_) => None,
                    Err(e) => Some(e.message@),
                },
                final(self).state(),
            ),
            final(self).args == old(self).args,
            final(self).loaded_modules == old(self).loaded_modules,
    {
        proof {
            lemma_values_view_len(self.value_stack@);
            lemma_instrs_view_len(self.current_bytecode@);
            lemma_last_view(self.value_stack@);
        }
        let len = self.value_stack.len();
        let source = match &self.value_stack[len - 1] {
            Value::String(s) => owned(s.as_str()),
            _ => owned(""),
        };
        self.pop_value();
        match self.start_source(source.as_str(), Then::Eval, "", true) {
            Ok(()) => Ok(()),
            Err(msg) => Err(RuntimeError::new(msg)),
        }
    }
} // impl VM
} // verus!
