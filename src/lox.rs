use vstd::prelude::*;
use vstd::string::StringSliceAdditionalSpecFns;

use crate::scanner::{items_view, result_view, scan, Scanner};
use crate::token::{ScannerErr, Token, TokenView, Type};

verus! {

/// The line of the end marker after `items`: one past the line of the last
/// token among them, or line 1 where there is none.
pub open spec fn eof_line(items: Seq<Result<TokenView, ScannerErr>>) -> int
    decreases items.len(),
{
    if items.len() == 0 {
        1
    } else {
        match items.last() {
            Ok(t) => t.line + 1,
            Err(_) => eof_line(items.drop_last()),
        }
    }
}

/// Whether any of `items` is an error.
pub open spec fn any_error(items: Seq<Result<TokenView, ScannerErr>>) -> bool {
    exists|i: int| 0 <= i < items.len() && #[trigger] items[i] is Err
}

/// The end marker that closes a scan.
pub open spec fn end_marker(items: Seq<Result<TokenView, ScannerErr>>) -> TokenView {
    TokenView { kind: Type::EOF, text: "\0"@, line: eof_line(items) }
}

/// A session of the language: it records whether a lexical error has been
/// reported since it began or was last reset.
pub struct Lox {
    had_error: bool,
}

impl Lox {
    /// Whether an error has been reported.
    pub closed spec fn flagged(&self) -> bool {
        self.had_error
    }

    /// A session with no error reported.
    pub fn new() -> (r: Lox)
        ensures
            !r.flagged(),
    {
        Lox { had_error: false }
    }

    /// Scans `src` in full. Hands back, in order, every token and error the
    /// scan produced, then an end marker; every error is reported.
    pub fn run(&mut self, src: &str) -> (r: Vec<Result<Token, ScannerErr>>)
        requires
            src.spec_bytes().len() <= isize::MAX,
        ensures
            r@.len() == scan(src.spec_bytes()).len() + 1,
            items_view(r@.drop_last()) == scan(src.spec_bytes()),
            result_view(r@.last()) == Ok::<TokenView, ScannerErr>(
                end_marker(scan(src.spec_bytes())),
            ),
            final(self).flagged() == (old(self).flagged() || any_error(scan(src.spec_bytes()))),
    {
        let mut scanner = Scanner::new(src);
        let items = scanner.drain();
        let ghost all = items_view(items@);
        let mut out: Vec<Result<Token, ScannerErr>> = Vec::new();
        let mut last_line: Option<usize> = None;
        let mut i: usize = 0;
        while i < items.len()
            invariant
                all == items_view(items@),
                all == scan(src.spec_bytes()),
                forall|k: int|
                    0 <= k < items@.len() ==> (#[trigger] items@[k] matches Ok(t) ==> t.line
                        <= src.spec_bytes().len() + 1),
                src.spec_bytes().len() <= isize::MAX,
                i <= items.len(),
                out@.len() == i,
                items_view(out@) == all.subrange(0, i as int),
                eof_line(all.subrange(0, i as int)) == match last_line {
                    Some(l) => l + 1,
                    None => 1,
                },
                last_line matches Some(l) ==> l <= src.spec_bytes().len() + 1,
                self.flagged() == (old(self).flagged() || any_error(all.subrange(0, i as int))),
            decreases items.len() - i,
        {
            let ghost prev = all.subrange(0, i as int);
            let ghost next = all.subrange(0, i as int + 1);
            assert(next.drop_last() =~= prev);
            assert(next.last() == all[i as int]);
            let item = match &items[i] {
                Ok(t) => {
                    last_line = Some(t.line);
                    Ok(Token { token_type: t.token_type, lexeme: t.lexeme.clone(), line: t.line })
                },
                Err(e) => {
                    self.error(e.line(), e.message());
                    Err(*e)
                },
            };
            proof {
                if any_error(next) {
                    let j = choose|j: int| 0 <= j < next.len() && #[trigger] next[j] is Err;
                    if j < i {
                        assert(prev[j] is Err);
                    }
                }
                if any_error(prev) {
                    let j = choose|j: int| 0 <= j < prev.len() && #[trigger] prev[j] is Err;
                    assert(next[j] is Err);
                }
                if all[i as int] is Err {
                    assert(next[i as int] is Err);
                }
            }
            let ghost outprev = out@;
            out.push(item);
            assert(items_view(out@) =~= items_view(outprev).push(all[i as int]));
            assert(items_view(outprev).push(all[i as int]) =~= next);
            i = i + 1;
        }
        assert(all.subrange(0, all.len() as int) =~= all);
        let line: usize = match last_line {
            Some(l) => l + 1,
            None => 1,
        };
        let ghost body = out@;
        out.push(Ok(Token { token_type: Type::EOF, lexeme: "\0".to_owned(), line }));
        assert(out@.drop_last() =~= body);
        out
    }

    /// Reports an error found on `line`; the session records it. The
    /// diagnostic text itself is printed by the caller.
    pub fn error(&mut self, line: usize, msg: &str)
        ensures
            final(self).flagged(),
    {
        self.report(line, msg);
    }

    /// Records that an error was reported.
    fn report(&mut self, line: usize, msg: &str)
        ensures
            final(self).flagged(),
    {
        self.had_error = true;
    }

    /// Whether an error has been reported since the session began or was
    /// last reset.
    pub fn had_error(&self) -> (r: bool)
        ensures
            r == self.flagged(),
    {
        self.had_error
    }

    /// Forgets the errors reported so far.
    pub fn reset_error(&mut self)
        ensures
            !final(self).flagged(),
    {
        self.had_error = false;
    }
}

} // verus!
