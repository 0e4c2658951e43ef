//! The state and decisions of the interactive front end: the edited
//! view, the command history, and what happens when a line is entered.
//! Terminal input and drawing stay with the embedder, which drives this
//! state through the methods here.

use crate::evaluator::{EvalResult, Evaluator};
use crate::object::ObjV;
use crate::object::Object;
use crate::lexer::Lexer;
use crate::parser::Parser;
use crate::strutil::{push_char, str_eq};
use vstd::prelude::*;

verus! {

/// The rendering of the edited rows as one command: each row followed by
/// a carriage return and line feed.
pub open spec fn render_rows(rows: Seq<Vec<char>>) -> Seq<char>
    decreases rows,
{
    if rows.len() == 0 {
        Seq::empty()
    } else {
        rows[0]@ + "\r\n"@ + render_rows(rows.drop_first())
    }
}

proof fn lemma_render_rows_snoc(rows: Seq<Vec<char>>)
    requires
        rows.len() > 0,
    ensures
        render_rows(rows) == render_rows(rows.drop_last()) + rows.last()@ + "\r\n"@,
    decreases rows,
{
    reveal_strlit("\r\n");
    if rows.len() == 1 {
        assert(rows.drop_first() =~= Seq::<Vec<char>>::empty());
        assert(rows.drop_last() =~= Seq::<Vec<char>>::empty());
        assert(render_rows(Seq::<Vec<char>>::empty()) == Seq::<char>::empty());
        assert(render_rows(rows) =~= render_rows(rows.drop_last()) + rows.last()@ + "\r\n"@);
    } else {
        lemma_render_rows_snoc(rows.drop_first());
        let a: Seq<char> = "\r\n"@;
        let x0 = rows[0]@;
        let r = render_rows(rows.drop_first().drop_last());
        let xl = rows.last()@;
        assert(rows.drop_last().len() > 0);
        assert(rows.drop_last().drop_first() =~= rows.drop_first().drop_last());
        assert(rows.drop_last()[0] == rows[0]);
        assert(rows.drop_first().last() == rows.last());
        assert(render_rows(rows) == x0 + a + render_rows(rows.drop_first()));
        assert(render_rows(rows.drop_first()) == r + xl + a);
        assert(render_rows(rows.drop_last()) == x0 + a + r);
        vstd::seq_lib::lemma_concat_associative(x0 + a, r + xl, a);
        vstd::seq_lib::lemma_concat_associative(x0 + a, r, xl);
        assert(render_rows(rows) =~= render_rows(rows.drop_last()) + xl + a);
    }
}

/// The rows a remembered command splits back into: the text divided at
/// each carriage-return-line-feed pair, empty rows dropped; `row` and
/// `acc` carry the row being gathered and the rows finished so far.
pub open spec fn split_rows(s: Seq<char>, i: int, row: Seq<char>, acc: Seq<Seq<char>>) -> Seq<
    Seq<char>,
>
    decreases s.len() - i,
{
    if !(0 <= i < s.len()) {
        if row.len() != 0 {
            acc.push(row)
        } else {
            acc
        }
    } else if s[i] == '\r' && i + 1 < s.len() && s[i + 1] == '\n' {
        split_rows(
            s,
            i + 2,
            Seq::empty(),
            if row.len() != 0 {
                acc.push(row)
            } else {
                acc
            },
        )
    } else {
        split_rows(s, i + 1, row.push(s[i]), acc)
    }
}

/// The interactive session: the evaluator, the command history, the rows
/// being edited, and the cursor bookkeeping of the front end.
pub struct Repl {
    pub evaluator: Evaluator,
    pub commands: Vec<String>,
    pub view: Vec<Vec<char>>,
    pub row_offset: u16,
    pub cur_x: u16,
    pub cur_y: u16,
    pub i: usize,
    pub max_view_len: u16,
    /// Set when the last entered line aborted with a fault; the front
    /// end turns it into a process fault, as the fatal conditions ask.
    pub fault: Option<crate::evaluator::FaultKind>,
}

impl Repl {
    /// The session is sound to drive: the evaluator is well formed and
    /// at least one row is being edited.
    pub open spec fn wf(&self) -> bool {
        &&& self.evaluator.wf()
        &&& self.view@.len() >= 1
    }

    /// A fresh session: a fresh evaluator, no history, one empty row.
    pub fn new() -> (r: Repl)
        ensures
            r.wf(),
            r.commands@.len() == 0,
            r.view@.len() == 1,
            r.cur_x == 5,
            r.cur_y == 0,
            r.i == 0,
            r.fault.is_none(),
    {
        let evaluator = Evaluator::new();
        let mut view: Vec<Vec<char>> = Vec::new();
        view.push(Vec::new());
        Repl {
            evaluator,
            commands: Vec::new(),
            view,
            row_offset: 0,
            cur_x: 5,
            cur_y: 0,
            i: 0,
            max_view_len: 1,
            fault: None,
        }
    }

    /// The column just past the end of the row under the cursor.
    pub fn last_x(&self) -> (r: u16)
        requires
            self.row_offset <= self.cur_y,
            (self.cur_y - self.row_offset) < self.view@.len(),
            self.view@[self.cur_y - self.row_offset]@.len() + 5 <= u16::MAX,
        ensures
            r == 5 + self.view@[self.cur_y - self.row_offset]@.len(),
    {
        5 + (self.view[(self.cur_y - self.row_offset) as usize].len() as u16)
    }

    /// The row index just past the last edited row.
    pub fn last_y(&self) -> (r: u16)
        requires
            self.view@.len() >= 1,
            self.view@.len() <= u16::MAX,
            self.row_offset + self.view@.len() - 1 <= u16::MAX,
        ensures
            r == self.row_offset + self.view@.len() - 1,
    {
        self.row_offset + ((self.view.len() as u16) - 1)
    }

    /// Split a remembered command back into edited rows; empty rows are
    /// dropped.
    pub fn get_view(&self, command: String) -> (r: Vec<Vec<char>>)
        ensures
            ({
                let rows = split_rows(command@, 0, Seq::empty(), Seq::empty());
                &&& r@.len() == rows.len()
                &&& forall|i: int| 0 <= i < rows.len() ==> (#[trigger] r@[i])@ == rows[i]
            }),
            forall|i: int| 0 <= i < r@.len() ==> (#[trigger] r@[i])@.len() > 0,
    {
        let mut view: Vec<Vec<char>> = Vec::new();
        let ghost mut accv: Seq<Seq<char>> = Seq::empty();
        let mut row: Vec<char> = Vec::new();
        let n = command.as_str().unicode_len();
        let mut i: usize = 0;
        while i < n
            invariant
                i <= n,
                n == command@.len(),
                view@.len() == accv.len(),
                forall|k: int| 0 <= k < accv.len() ==> (#[trigger] view@[k])@ == accv[k],
                forall|j: int| 0 <= j < view@.len() ==> (#[trigger] view@[j])@.len() > 0,
                split_rows(command@, 0, Seq::empty(), Seq::empty()) == split_rows(
                    command@,
                    i as int,
                    row@,
                    accv,
                ),
            decreases n - i,
        {
            let c = command.as_str().get_char(i);
            if c == '\r' && i + 1 < n && command.as_str().get_char(i + 1) == '\n' {
                proof {
                    assert(split_rows(command@, i as int, row@, accv) == split_rows(
                        command@,
                        i + 2,
                        Seq::empty(),
                        if row@.len() != 0 {
                            accv.push(row@)
                        } else {
                            accv
                        },
                    ));
                }
                if row.len() != 0 {
                    proof {
                        accv = accv.push(row@);
                    }
                    view.push(row);
                    proof {
                        assert(forall|j: int| 0 <= j < view@.len() - 1 ==> view@[j]
                            == view@.drop_last()[j]);
                    }
                }
                row = Vec::new();
                i = i + 2;
            } else {
                proof {
                    assert(split_rows(command@, i as int, row@, accv) == split_rows(
                        command@,
                        i + 1,
                        row@.push(command@[i as int]),
                        accv,
                    ));
                }
                row.push(c);
                i = i + 1;
            }
        }
        proof {
            assert(split_rows(command@, i as int, row@, accv) == (if row@.len() != 0 {
                accv.push(row@)
            } else {
                accv
            }));
        }
        if row.len() != 0 {
            proof {
                assert(forall|j: int| 0 <= j < view@.len() ==> view@[j] == view@.push(row)[j]);
            }
            view.push(row);
        }
        view
    }

    /// The rows being edited, joined into the command text the parser
    /// sees.
    pub fn get_command(&self) -> (r: String)
        ensures
            r@ == render_rows(self.view@),
    {
        let mut input = String::new();
        let n = self.view.len();
        let mut i: usize = 0;
        proof {
            assert(self.view@.take(0) =~= Seq::<Vec<char>>::empty());
        }
        while i < n
            invariant
                i <= n,
                n == self.view@.len(),
                input@ == render_rows(self.view@.take(i as int)),
            decreases n - i,
        {
            let row = &self.view[i];
            let m = row.len();
            let mut k: usize = 0;
            while k < m
                invariant
                    k <= m,
                    m == row@.len(),
                    row == &self.view@[i as int],
                    i < n,
                    n == self.view@.len(),
                    input@ == render_rows(self.view@.take(i as int)) + row@.take(k as int),
                decreases m - k,
            {
                push_char(&mut input, row[k]);
                proof {
                    assert(row@.take(k + 1) =~= row@.take(k as int).push(row@[k as int]));
                    assert(render_rows(self.view@.take(i as int)) + row@.take(k as int) + seq![
                        row@[k as int],
                    ] =~= render_rows(self.view@.take(i as int)) + row@.take(k + 1));
                }
                k = k + 1;
            }
            input.append("\r\n");
            proof {
                reveal_strlit("\r\n");
                let rows = self.view@;
                assert(row@.take(m as int) =~= row@);
                assert(rows.take(i + 1).drop_last() =~= rows.take(i as int));
                assert(rows.take(i + 1).last() == rows[i as int]);
                lemma_render_rows_snoc(rows.take(i + 1));
                assert(input@ =~= render_rows(rows.take(i + 1)));
            }
            i = i + 1;
        }
        proof {
            assert(self.view@.take(n as int) =~= self.view@);
        }
        input
    }

    /// Act on an entered line: parse the edited text; ask for another
    /// line if the program is syntactically unfinished, otherwise report
    /// parser diagnostics or evaluate and render the outcome.
    pub fn enter(&mut self) -> (r: (bool, String))
        requires
            old(self).wf(),
        ensures
            final(self).wf(),
            r.0 ==> final(self).view@.len() == old(self).view@.len() + 1,
            !r.0 ==> final(self).i == 0 && final(self).max_view_len == 0,
            ({
                let cmd = render_rows(old(self).view@);
                let toks = crate::lexer::tokenize_s(cmd, 0);
                let (st2, stmts) = crate::parser::parse_program_s(
                    crate::parser::parser_init_s(toks),
                );
                &&& r.0 == st2.incomplete
                &&& (st2.incomplete ==> final(self).view@.drop_last() == old(self).view@
                    && final(self).view@.last()@ == Seq::<char>::empty()
                    && final(self).evaluator == old(self).evaluator && final(self).fault == old(
                    self,
                ).fault && r.1@ == Seq::<char>::empty())
                &&& ((!st2.incomplete && st2.errors.len() != 0) ==> r.1@
                    == crate::evaluator::parse_errors_msg(st2.errors) && final(self).evaluator
                    == old(self).evaluator && final(self).fault == old(self).fault)
                &&& ((!st2.incomplete && st2.errors.len() == 0) ==> ({
                    let (sc, out) = crate::evaluator::eval_program_s(
                        old(self).evaluator.env@,
                        old(self).evaluator.cur as int,
                        old(self).evaluator.srcs_v(),
                        stmts,
                        u64::MAX as nat,
                    );
                    &&& final(self).evaluator.env@ == sc
                    &&& final(self).evaluator.cur == old(self).evaluator.cur
                    &&& final(self).evaluator.sources == old(self).evaluator.sources
                    &&& (match out {
                        crate::evaluator::ROut::Val(v) => final(self).fault == old(self).fault
                            && (match v {
                            ObjV::Null => r.1@ == Seq::<char>::empty(),
                            _ => r.1@ == crate::object::render_obj(v),
                        }),
                        crate::evaluator::ROut::NoVal => final(self).fault == old(self).fault
                            && r.1@ == "cannot evaluate error!"@,
                        crate::evaluator::ROut::Fault(k) => final(self).fault == Some(k) && r.1@
                            == Seq::<char>::empty(),
                    })
                }))
            }),
    {
        let mut output = String::new();
        let input = self.get_command();
        let l = Lexer::new(input.as_str());
        let mut p = Parser::new(l);
        let program = p.parse_program();
        proof {
            crate::parser::lemma_pstate(p);
            crate::parser::lemma_view_errors(p.errors@);
        }
        let ghost st2 = p.pstate();
        if p.need_next() {
            self.view.push(Vec::new());
            proof {
                assert(final(self).view@.drop_last() =~= old(self).view@);
            }
            return (true, output);
        }
        if p.errors.len() != 0 {
            output.append("parser errors:\r\n");
            let ne = p.errors.len();
            let mut i: usize = 0;
            proof {
                assert(st2.errors.take(0) =~= Seq::<Seq<char>>::empty());
            }
            while i < ne
                invariant
                    i <= ne,
                    ne == p.errors@.len(),
                    st2 == p.pstate(),
                    st2.errors.len() == ne,
                    forall|k: int| 0 <= k < ne ==> st2.errors[k] == (#[trigger] p.errors@[k])@,
                    output@ == "parser errors:\r\n"@ + crate::evaluator::errors_lines(
                        st2.errors.take(i as int),
                    ),
                decreases ne - i,
            {
                proof {
                    reveal_strlit("\t");
                }
                output.append("\t");
                output.append(p.errors[i].as_str());
                output.append("\r\n");
                proof {
                    let evs = st2.errors;
                    assert(evs.take(i + 1).drop_last() =~= evs.take(i as int));
                    assert(evs.take(i + 1).last() == evs[i as int]);
                    crate::evaluator::lemma_errors_lines_snoc(evs.take(i + 1));
                    assert("\t"@ =~= seq!['\t']);
                    assert(output@ =~= "parser errors:\r\n"@ + crate::evaluator::errors_lines(
                        evs.take(i + 1),
                    ));
                }
                i += 1;
            }
            proof {
                assert(st2.errors.take(ne as int) =~= st2.errors);
                assert(output@ =~= crate::evaluator::parse_errors_msg(st2.errors));
            }
        } else {
            match self.evaluator.eval_outcome(&program) {
                EvalResult::Value(evaluated) => {
                    match &evaluated {
                        Object::Null => {},
                        _ => {
                            let shown = evaluated.string();
                            output.append(shown.as_str());
                            proof {
                                assert(output@ =~= crate::object::render_obj(evaluated@));
                            }
                        },
                    }
                },
                EvalResult::NoValue => {
                    output.append("cannot evaluate error!");
                },
                EvalResult::Fault(k) => {
                    self.fault = Some(k);
                },
            }
        }
        self.new_line(input);
        (false, output)
    }

    /// Remember how tall the view has been.
    pub fn set_max_view_len(&mut self)
        requires
            old(self).view@.len() <= u16::MAX,
        ensures
            final(self).evaluator == old(self).evaluator,
            final(self).view == old(self).view,
            final(self).commands == old(self).commands,
            final(self).i == old(self).i,
            final(self).fault == old(self).fault,
            final(self).max_view_len as int == vstd::math::max(
                old(self).max_view_len as int,
                old(self).view@.len() as int,
            ),
    {
        let n = self.view.len() as u16;
        if n > self.max_view_len {
            self.max_view_len = n;
        }
    }

    /// Remember an entered command, unless it was a bare blank line, and
    /// reset the history walk.
    pub fn new_line(&mut self, input: String)
        ensures
            final(self).i == 0,
            final(self).max_view_len == 0,
            final(self).evaluator == old(self).evaluator,
            final(self).view == old(self).view,
            final(self).fault == old(self).fault,
            input@ == "\r\n"@ ==> final(self).commands == old(self).commands,
            input@ != "\r\n"@ ==> final(self).commands@.len() == old(self).commands@.len() + 1
                && final(self).commands@.last() == input && final(self).commands@.drop_last()
                == old(self).commands@,
    {
        if !str_eq(input.as_str(), "\r\n") {
            let ghost before = self.commands@;
            self.commands.push(input);
            proof {
                assert(self.commands@.drop_last() =~= before);
            }
        }
        self.i = 0;
        self.max_view_len = 0;
    }
}

} // verus!
