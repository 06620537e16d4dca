//! The stages in their order: source text is scanned, the tokens are
//! parsed, the program is resolved, and only then is it run.

use crate::environment::unresolved_variable;
use crate::errors::{LoxResult, LoxResultView};
use crate::interpreter::{interpret, unit_result_view, Interpreter, InterpreterView};
use crate::numbering::{lemma_parsed_program_is_tidy, within};
use crate::parser::{errors_view, program, program_items, stmts_result_view, Parser};
use crate::resolution::{
    fresh, lemma_frame_stmts, lemma_resolved_program_is_checked, sites_stmts,
};
use crate::resolver::{resolve_stmts, FunctionType, Resolver, ResolverView};
use crate::scanner::{lemma_scan_from_bounds, scan, Scanner};
use crate::soundness::{
    checked_stmts, heap_ok, lemma_checked_program_runs, lemma_heap_with_limit,
    lemma_heap_with_record, lemma_unresolved_is_a_miss, sites_below, Witness,
};
use crate::stmt::{stmts_view, Stmt, StmtView};
use crate::token::TokenView;
use vstd::prelude::*;

verus! {

/// An interpreter together with what it takes to give it source text to
/// run, one piece after another.
pub struct Lox {
    /// The interpreter.
    pub interpreter: Interpreter,
    /// The number of the first site of the next piece of source text.
    pub next_site: usize,
    /// The diagnostics that the parser made of the last piece of source
    /// text.
    pub diagnostics: Vec<LoxResult>,
}

/// The mathematical model of a [`Lox`].
pub struct LoxView {
    pub interpreter: InterpreterView,
    pub next_site: int,
    pub diagnostics: Seq<LoxResultView>,
}

impl View for Lox {
    type V = LoxView;

    open spec fn view(&self) -> LoxView {
        LoxView {
            interpreter: self.interpreter@,
            next_site: self.next_site as int,
            diagnostics: errors_view(self.diagnostics@),
        }
    }
}

/// What preparing a piece of source text yields: the state after it, and the
/// statements to run, or the error that keeps it from running.
pub struct Prepared {
    pub state: LoxView,
    pub result: Result<Seq<StmtView>, LoxResultView>,
}

/// What running a piece of source text yields.
pub struct Ran {
    pub state: LoxView,
    pub result: Result<(), LoxResultView>,
}

/// The resolver at the top level, with what the interpreter holds of
/// earlier pieces of source text.
pub open spec fn resolver_for(interpreter: InterpreterView) -> ResolverView {
    ResolverView {
        scopes: Seq::empty(),
        current_function: FunctionType::Void,
        locals: interpreter.locals,
    }
}

/// Prepares a piece of source text: scans it, parses the tokens with the
/// sites numbered on from those of earlier pieces, and resolves the
/// program. The first error of the first stage that fails ends it: nothing
/// that did not pass all three stages is run.
pub open spec fn prepared(lox: LoxView, source: Seq<char>) -> Prepared {
    match scan(source) {
        Err(e) => Prepared { state: LoxView { diagnostics: Seq::empty(), ..lox }, result: Err(e) },
        Ok(tokens) => {
            let items = program_items(tokens, 0, lox.next_site, Seq::empty(), Seq::empty());
            let parsed = LoxView { next_site: items.site, diagnostics: items.errors, ..lox };
            match program(items) {
                Err(e) => Prepared { state: parsed, result: Err(e) },
                Ok(stmts) => {
                    let resolved = resolve_stmts(resolver_for(lox.interpreter), stmts);
                    Prepared {
                        state: LoxView {
                            interpreter: InterpreterView {
                                locals: resolved.state.locals,
                                ..lox.interpreter
                            },
                            ..parsed
                        },
                        result: match resolved.error {
                            Some(e) => Err(e),
                            None => Ok(stmts),
                        },
                    }
                },
            }
        },
    }
}

/// Runs a piece of source text: prepares it, and interprets the program if
/// it passed. `clocks` holds the readings of the clock, one for each
/// statement.
pub open spec fn run(lox: LoxView, source: Seq<char>, clocks: Seq<u64>) -> Ran {
    let ready = prepared(lox, source);
    match ready.result {
        Err(e) => Ran { state: ready.state, result: Err(e) },
        Ok(stmts) => {
            let ran = interpret(ready.state.interpreter, stmts, clocks);
            Ran { state: LoxView { interpreter: ran.state, ..ready.state }, result: ran.result }
        },
    }
}

/// The session is sound, as the witness shows: the interpreter stands in one
/// of its environments; each of its functions and classes was declared
/// within the scopes that the witness gives for it, with every site of its
/// body recorded rightly; and every site that occurs in them or in the
/// record has a number below that of the next site.
pub open spec fn session_ok(lox: LoxView, w: Witness) -> bool {
    &&& 0 <= lox.next_site
    &&& 0 <= lox.interpreter.environment < lox.interpreter.environments.len()
    &&& heap_ok(lox.interpreter, w, lox.interpreter.locals, lox.next_site)
    &&& forall|site: usize| #[trigger]
        lox.interpreter.locals.contains_key(site) ==> site < lox.next_site
}

/// The session is sound: so far, the interpreter and the resolver have
/// gone together.
pub open spec fn sound(lox: LoxView) -> bool {
    exists|w: Witness| session_ok(lox, w)
}

impl Lox {
    /// The interpreter is well formed.
    pub open spec fn wf(&self) -> bool {
        self.interpreter.wf()
    }

    /// There is a number left for every site that the source text can make.
    pub open spec fn has_room_for(&self, source: Seq<char>) -> bool {
        self.next_site + source.len() + 1 <= usize::MAX
    }

    /// A new interpreter.
    pub fn new() -> (r: Lox)
        ensures
            r.wf(),
            sound(r@),
            r.interpreter@ == crate::interpreter::fresh(),
            r.next_site == 0,
    {
        let r = Lox { interpreter: Interpreter::new(), next_site: 0, diagnostics: Vec::new() };
        proof {
            let w = Witness { functions: Seq::empty(), classes: Seq::empty() };
            assert(session_ok(r@, w));
        }
        r
    }

    /// Prepares a piece of source text for running: scans, parses and
    /// resolves it.
    pub fn prepare(&mut self, source: String) -> (r: Result<Vec<Stmt>, LoxResult>)
        requires
            old(self).wf(),
            old(self).has_room_for(source@),
        ensures
            final(self).wf(),
            prepared(old(self)@, source@) == (Prepared {
                state: final(self)@,
                result: stmts_result_view(r),
            }),
            sound(old(self)@) ==> sound(final(self)@),
    {
        proof {
            if sound(self@) {
                let w = choose|w: Witness| session_ok(self@, w);
                lemma_prepared_session(self@, w, source@);
            }
        }
        self.diagnostics = Vec::new();
        assert(errors_view(self.diagnostics@) =~= Seq::<LoxResultView>::empty());
        let mut scanner = Scanner::new(source);
        proof {
            lemma_scan_from_bounds(source@, 0, 1, Seq::empty());
        }
        let tokens = match scanner.scan_tokens() {
            Ok(tokens) => tokens,
            Err(e) => {
                return Err(e);
            },
        };
        let mut parser = Parser::starting_at(tokens, self.next_site);
        assert(parser.diagnostics() =~= Seq::<LoxResultView>::empty());
        let parsed = parser.parse();
        self.next_site = parser.next_site;
        let Parser { errors, .. } = parser;
        self.diagnostics = errors;
        let statements = match parsed {
            Ok(statements) => statements,
            Err(e) => {
                return Err(e);
            },
        };
        let mut resolver = Resolver::new();
        assert(resolver.state(&self.interpreter) == resolver_for(self.interpreter@)) by {
            assert(crate::resolver::scopes_view(resolver.scopes@) =~= Seq::<
                Map<Seq<char>, bool>,
            >::empty());
        }
        match resolver.resolve_stmts(statements.as_slice(), &mut self.interpreter) {
            Ok(_) => Ok(statements),
            Err(e) => Err(e),
        }
    }

    /// Runs a piece of source text: prepares it, and interprets the program
    /// if it passed.
    ///
    /// In a sound session, and a session is sound from its start, the run
    /// does not end in the error of a variable that is not where the
    /// resolver recorded it to live; and the session stays sound.
    pub fn run(&mut self, source: String) -> (r: Result<(), LoxResult>)
        requires
            old(self).wf(),
            old(self).has_room_for(source@),
        ensures
            final(self).wf(),
            exists|clocks: Seq<u64>| #[trigger]
                run(old(self)@, source@, clocks) == (Ran {
                    state: final(self)@,
                    result: unit_result_view(r),
                }),
            sound(old(self)@) ==> sound(final(self)@),
            sound(old(self)@) ==> forall|token: TokenView|
                unit_result_view(r) != Err::<(), LoxResultView>(
                    #[trigger] unresolved_variable(token),
                ),
    {
        let ghost before = self@;
        let statements = match self.prepare(source) {
            Ok(statements) => statements,
            Err(e) => {
                proof {
                    assert(run(before, source@, Seq::empty()) == (Ran {
                        state: self@,
                        result: Err(e@),
                    }));
                    if sound(before) {
                        let w = choose|w: Witness| session_ok(before, w);
                        let w2 = lemma_session(before, w, source@, Seq::empty());
                    }
                }
                return Err(e);
            },
        };
        let ghost ready = self@;
        let r = self.interpreter.interpret(statements.as_slice());
        proof {
            let program = stmts_view(statements@);
            let clocks = choose|clocks: Seq<u64>|
                clocks.len() == statements@.len() && #[trigger] interpret(
                    ready.interpreter,
                    program,
                    clocks,
                ) == (crate::interpreter::Executed {
                    state: self.interpreter@,
                    result: unit_result_view(r),
                });
            assert(run(before, source@, clocks) == (Ran {
                state: self@,
                result: unit_result_view(r),
            }));
            if sound(before) {
                let w = choose|w: Witness| session_ok(before, w);
                let w2 = lemma_session(before, w, source@, clocks);
            }
        }
        r
    }
}

/// Preparing a piece of source text keeps a session sound; the program
/// that passes has every site recorded rightly, with a number below that of
/// the next site; and the error that keeps a piece from running is one of
/// the scanner, of the parser or of the resolver.
proof fn lemma_prepared_session(lox: LoxView, w: Witness, source: Seq<char>)
    requires
        session_ok(lox, w),
        lox.next_site + source.len() + 1 <= usize::MAX,
    ensures
        session_ok(prepared(lox, source).state, w),
        prepared(lox, source).result is Ok ==> {
            &&& checked_stmts(
                Seq::empty(),
                prepared(lox, source).result->Ok_0,
                prepared(lox, source).state.interpreter.locals,
            ) is Some
            &&& sites_below(
                sites_stmts(prepared(lox, source).result->Ok_0),
                prepared(lox, source).state.next_site,
            )
        },
        prepared(lox, source).result is Err ==> !(prepared(lox, source).result->Err_0
            is Environment),
{
    let first = lox.next_site;
    let before = lox.interpreter.locals;
    lemma_scan_from_bounds(source, 0, 1, Seq::empty());
    match scan(source) {
        Err(e) => {},
        Ok(tokens) => {
            lemma_parsed_program_is_tidy(tokens, first);
            let items = program_items(tokens, 0, first, Seq::empty(), Seq::empty());
            let next = items.site;
            lemma_heap_with_limit(lox.interpreter, w, before, first, next);
            match program(items) {
                Err(e) => {
                    assert(e == items.errors[0]);
                },
                Ok(stmts) => {
                    let sites = sites_stmts(stmts);
                    let resolved = resolve_stmts(resolver_for(lox.interpreter), stmts);
                    let after = resolved.state.locals;
                    lemma_frame_stmts(resolver_for(lox.interpreter), stmts);
                    assert forall|site: usize| site < first implies {
                        &&& #[trigger] after.contains_key(site) == before.contains_key(site)
                        &&& before.contains_key(site) ==> after[site] == before[site]
                    } by {
                        if sites.contains(site) {
                            assert(first <= site);
                        }
                        assert(!sites.contains(site));
                        assert(after.contains_key(site) == before.contains_key(site));
                    }
                    lemma_heap_with_record(lox.interpreter, w, after, first);
                    let ready = InterpreterView { locals: after, ..lox.interpreter };
                    lemma_heap_with_limit(ready, w, after, first, next);
                    assert forall|site: usize| #[trigger] after.contains_key(site) implies site
                        < next by {
                        if sites.contains(site) {
                        } else {
                            assert(after.contains_key(site) == before.contains_key(site));
                            assert(before.contains_key(site));
                        }
                    }
                    assert(sites_below(sites, next)) by {
                        assert forall|site: usize| #[trigger] sites.contains(site) implies site
                            < next by {}
                    }
                    if resolved.error is None {
                        assert(fresh(before, sites)) by {
                            assert forall|site: usize| sites.contains(site) implies !#[trigger] before.contains_key(
                                site,
                            ) by {
                                assert(first <= site);
                            }
                        }
                        lemma_resolved_program_is_checked(resolver_for(lox.interpreter), stmts);
                    }
                },
            }
        },
    }
}

/// Running a piece of source text keeps a session sound, and in a sound
/// session no run ends in the error of a variable that is not where it was
/// recorded to live.
proof fn lemma_session(lox: LoxView, w: Witness, source: Seq<char>, clocks: Seq<u64>) -> (w2:
    Witness)
    requires
        session_ok(lox, w),
        lox.next_site + source.len() + 1 <= usize::MAX,
    ensures
        session_ok(run(lox, source, clocks).state, w2),
        forall|token: TokenView|
            run(lox, source, clocks).result != Err::<(), LoxResultView>(
                #[trigger] unresolved_variable(token),
            ),
{
    lemma_prepared_session(lox, w, source);
    let ready = prepared(lox, source);
    match ready.result {
        Err(e) => {
            assert forall|token: TokenView|
                run(lox, source, clocks).result != Err::<(), LoxResultView>(
                    #[trigger] unresolved_variable(token),
                ) by {}
            w
        },
        Ok(stmts) => {
            let w2 = lemma_checked_program_runs(
                ready.state.interpreter,
                stmts,
                clocks,
                w,
                ready.state.next_site,
            );
            assert forall|token: TokenView|
                run(lox, source, clocks).result != Err::<(), LoxResultView>(
                    #[trigger] unresolved_variable(token),
                ) by {
                lemma_unresolved_is_a_miss(token);
            }
            w2
        },
    }
}

} // verus!
