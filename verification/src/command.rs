use vstd::prelude::*;

use crate::strutil::push_char;

verus! {

/// A tokenized command line: the ordered argument list and the index of the
/// argument the caret occupies.  `cursor == args.len()` only when the line
/// ends in a trailing delimiter; otherwise `cursor < args.len()`.
#[derive(Debug, Clone)]
pub struct Command {
    pub args: Vec<String>,
    pub cursor: usize,
}

/// State of the tokenizer once the leading marker has been consumed.
#[derive(Clone, Copy, Debug)]
pub enum LexState {
    /// Between tokens, skipping delimiters.
    Delim,
    /// Inside a bare token.
    Unquoted,
    /// Inside a single-quoted span.
    SingleQ,
    /// Inside a double-quoted span.
    DoubleQ,
    /// After a backslash in a bare token.
    UnquotedEsc,
    /// After a backslash in a single-quoted span.
    SingleQEsc,
    /// After a backslash in a double-quoted span.
    DoubleQEsc,
}

/// Runs the tokenizer state machine over `rest`, starting from state `st`
/// with a partially accumulated token `tok` and the tokens `toks` emitted so
/// far; yields the state, partial token and emitted tokens after consuming
/// all of `rest`.
pub open spec fn scan(st: LexState, tok: Seq<char>, toks: Seq<Seq<char>>, rest: Seq<char>) -> (
    LexState,
    Seq<char>,
    Seq<Seq<char>>,
)
    decreases rest.len(),
{
    if rest.len() == 0 {
        (st, tok, toks)
    } else {
        let c = rest[0];
        let tail = rest.subrange(1, rest.len() as int);
        match st {
            LexState::Delim => if c == ' ' {
                scan(LexState::Delim, tok, toks, tail)
            } else if c == '\'' {
                scan(LexState::SingleQ, tok, toks, tail)
            } else if c == '"' {
                scan(LexState::DoubleQ, tok, toks, tail)
            } else if c == '\\' {
                scan(LexState::UnquotedEsc, tok, toks, tail)
            } else {
                scan(LexState::Unquoted, tok.push(c), toks, tail)
            },
            LexState::Unquoted => if c == ' ' {
                scan(LexState::Delim, Seq::empty(), toks.push(tok), tail)
            } else if c == '\'' {
                scan(LexState::SingleQ, tok, toks, tail)
            } else if c == '"' {
                scan(LexState::DoubleQ, tok, toks, tail)
            } else if c == '\\' {
                scan(LexState::UnquotedEsc, tok, toks, tail)
            } else {
                scan(LexState::Unquoted, tok.push(c), toks, tail)
            },
            LexState::SingleQ => if c == '\'' {
                scan(LexState::Unquoted, tok, toks, tail)
            } else if c == '\\' {
                scan(LexState::SingleQEsc, tok, toks, tail)
            } else {
                scan(LexState::SingleQ, tok.push(c), toks, tail)
            },
            LexState::DoubleQ => if c == '"' {
                scan(LexState::Unquoted, tok, toks, tail)
            } else if c == '\\' {
                scan(LexState::DoubleQEsc, tok, toks, tail)
            } else {
                scan(LexState::DoubleQ, tok.push(c), toks, tail)
            },
            LexState::UnquotedEsc => scan(LexState::Unquoted, tok.push(c), toks, tail),
            LexState::SingleQEsc => scan(LexState::SingleQ, tok.push(c), toks, tail),
            LexState::DoubleQEsc => scan(LexState::DoubleQ, tok.push(c), toks, tail),
        }
    }
}

/// The machine's configuration after the marker and the whole input.
pub open spec fn scan_all(s: Seq<char>) -> (LexState, Seq<char>, Seq<Seq<char>>) {
    scan(LexState::Delim, Seq::empty(), Seq::empty(), s.subrange(1, s.len() as int))
}

/// Whether the line tokenizes without error: it must open with the marker and
/// may not end inside a quoted span or right after a backslash.
pub open spec fn parse_ok(s: Seq<char>) -> bool {
    &&& s.len() > 0
    &&& s[0] == '/'
    &&& (scan_all(s).0 is Delim || scan_all(s).0 is Unquoted)
}

/// The argument list of a well-formed line: the emitted tokens, closed by the
/// trailing partial token if the line ends inside one; an empty line (just
/// the marker) yields one empty argument.
pub open spec fn parse_args(s: Seq<char>) -> Seq<Seq<char>> {
    let toks = if scan_all(s).0 is Unquoted {
        scan_all(s).2.push(scan_all(s).1)
    } else {
        scan_all(s).2
    };
    if toks.len() == 0 {
        seq![Seq::<char>::empty()]
    } else {
        toks
    }
}

/// The tokens already emitted once the characters up to and including index
/// `j` have been consumed.
pub open spec fn toks_upto(s: Seq<char>, j: int) -> Seq<Seq<char>> {
    scan(LexState::Delim, Seq::empty(), Seq::empty(), s.subrange(1, j + 1)).2
}

/// The argument index attributed to a caret at character offset `k`: the
/// number of tokens emitted when the caret's character (or, past the end, the
/// last character) has been consumed.
pub open spec fn parse_cursor(s: Seq<char>, k: int) -> int {
    let j = if k < s.len() { k } else { s.len() - 1 };
    toks_upto(s, j).len() as int
}

/// The error reported for a line that does not tokenize.
pub open spec fn parse_fail_msg(s: Seq<char>) -> Seq<char> {
    if s.len() == 0 || s[0] != '/' {
        "Missing starting /"@
    } else if scan_all(s).0 is SingleQ || scan_all(s).0 is DoubleQ {
        "Missing closing quote"@
    } else {
        "Missing escaped char"@
    }
}

/// Consuming a concatenation runs the machine over the first part and then
/// the second.
pub proof fn lemma_scan_concat(
    st: LexState,
    tok: Seq<char>,
    toks: Seq<Seq<char>>,
    a: Seq<char>,
    b: Seq<char>,
)
    ensures
        scan(st, tok, toks, a + b) == scan(
            scan(st, tok, toks, a).0,
            scan(st, tok, toks, a).1,
            scan(st, tok, toks, a).2,
            b,
        ),
    decreases a.len(),
{
    if a.len() == 0 {
        assert(a + b =~= b);
    } else {
        let tail = a.subrange(1, a.len() as int);
        assert((a + b).subrange(1, (a + b).len() as int) =~= tail + b);
        assert((a + b)[0] == a[0]);
        let c = a[0];
        match st {
            LexState::Delim => if c == ' ' {
                lemma_scan_concat(LexState::Delim, tok, toks, tail, b);
            } else if c == '\'' {
                lemma_scan_concat(LexState::SingleQ, tok, toks, tail, b);
            } else if c == '"' {
                lemma_scan_concat(LexState::DoubleQ, tok, toks, tail, b);
            } else if c == '\\' {
                lemma_scan_concat(LexState::UnquotedEsc, tok, toks, tail, b);
            } else {
                lemma_scan_concat(LexState::Unquoted, tok.push(c), toks, tail, b);
            },
            LexState::Unquoted => if c == ' ' {
                lemma_scan_concat(LexState::Delim, Seq::empty(), toks.push(tok), tail, b);
            } else if c == '\'' {
                lemma_scan_concat(LexState::SingleQ, tok, toks, tail, b);
            } else if c == '"' {
                lemma_scan_concat(LexState::DoubleQ, tok, toks, tail, b);
            } else if c == '\\' {
                lemma_scan_concat(LexState::UnquotedEsc, tok, toks, tail, b);
            } else {
                lemma_scan_concat(LexState::Unquoted, tok.push(c), toks, tail, b);
            },
            LexState::SingleQ => if c == '\'' {
                lemma_scan_concat(LexState::Unquoted, tok, toks, tail, b);
            } else if c == '\\' {
                lemma_scan_concat(LexState::SingleQEsc, tok, toks, tail, b);
            } else {
                lemma_scan_concat(LexState::SingleQ, tok.push(c), toks, tail, b);
            },
            LexState::DoubleQ => if c == '"' {
                lemma_scan_concat(LexState::Unquoted, tok, toks, tail, b);
            } else if c == '\\' {
                lemma_scan_concat(LexState::DoubleQEsc, tok, toks, tail, b);
            } else {
                lemma_scan_concat(LexState::DoubleQ, tok.push(c), toks, tail, b);
            },
            LexState::UnquotedEsc => {
                lemma_scan_concat(LexState::Unquoted, tok.push(c), toks, tail, b);
            },
            LexState::SingleQEsc => {
                lemma_scan_concat(LexState::SingleQ, tok.push(c), toks, tail, b);
            },
            LexState::DoubleQEsc => {
                lemma_scan_concat(LexState::DoubleQ, tok.push(c), toks, tail, b);
            },
        }
    }
}

/// Quote choice of the escaper while it walks an argument: none needed yet,
/// quoting needed but either quote still possible (a space was seen), or one
/// of the two quote styles already picked.
#[derive(Clone, Copy, Debug)]
pub enum QuoteState {
    QNone,
    QSpace,
    QSingle,
    QDouble,
}

/// What the escaper emits for one character, and the quote choice afterwards.
/// A backslash is doubled; the first quote character seen picks the opposite
/// quoting style, and the active quote character is backslash-escaped.
pub open spec fn esc_char(c: char, q: QuoteState) -> (Seq<char>, QuoteState) {
    if c == '\\' {
        (seq!['\\', '\\'], q)
    } else if c == ' ' {
        (seq![' '], if q is QNone { QuoteState::QSpace } else { q })
    } else if c == '\'' {
        match q {
            QuoteState::QSingle => (seq!['\\', '\''], QuoteState::QSingle),
            QuoteState::QDouble => (seq!['\''], QuoteState::QDouble),
            _ => (seq!['\''], QuoteState::QDouble),
        }
    } else if c == '"' {
        match q {
            QuoteState::QSingle => (seq!['"'], QuoteState::QSingle),
            QuoteState::QDouble => (seq!['\\', '"'], QuoteState::QDouble),
            _ => (seq!['"'], QuoteState::QSingle),
        }
    } else {
        (seq![c], q)
    }
}

/// Runs the escaper over `rest` from quote choice `q`: the final choice and
/// the emitted characters (without the enclosing quotes).
pub open spec fn esc_scan(rest: Seq<char>, q: QuoteState) -> (QuoteState, Seq<char>)
    decreases rest.len(),
{
    if rest.len() == 0 {
        (q, Seq::empty())
    } else {
        let (e, q1) = esc_char(rest[0], q);
        let (qf, out) = esc_scan(rest.subrange(1, rest.len() as int), q1);
        (qf, e + out)
    }
}

/// The escaped form of one argument: the emitted characters, wrapped in the
/// chosen quote style when the argument needs quoting.
pub open spec fn escape_seq(arg: Seq<char>) -> Seq<char> {
    let (qf, out) = esc_scan(arg, QuoteState::QNone);
    match qf {
        QuoteState::QNone => out,
        QuoteState::QSingle => seq!['\''] + out + seq!['\''],
        _ => seq!['"'] + out + seq!['"'],
    }
}

/// The line assembled from the arguments at index `i` onwards, each escaped,
/// separated by single spaces (with no separator before the first argument).
pub open spec fn assemble_tail(args: Seq<Seq<char>>, i: int) -> Seq<char>
    decreases args.len() - i,
{
    if i < 0 || i >= args.len() {
        Seq::empty()
    } else {
        let sep: Seq<char> = if i == 0 {
            Seq::empty()
        } else {
            seq![' ']
        };
        sep + escape_seq(args[i]) + assemble_tail(args, i + 1)
    }
}

/// The line assembled from an argument list: the marker, then the escaped
/// arguments joined by spaces.
pub open spec fn assemble_seq(args: Seq<Seq<char>>) -> Seq<char> {
    seq!['/'] + assemble_tail(args, 0)
}

/// Once the escaper has picked single quoting it keeps it.
pub proof fn lemma_qsingle_absorb(rest: Seq<char>)
    ensures
        esc_scan(rest, QuoteState::QSingle).0 is QSingle,
    decreases rest.len(),
{
    if rest.len() > 0 {
        lemma_qsingle_absorb(rest.subrange(1, rest.len() as int));
    }
}

/// Once the escaper has picked double quoting it keeps it.
pub proof fn lemma_qdouble_absorb(rest: Seq<char>)
    ensures
        esc_scan(rest, QuoteState::QDouble).0 is QDouble,
    decreases rest.len(),
{
    if rest.len() > 0 {
        lemma_qdouble_absorb(rest.subrange(1, rest.len() as int));
    }
}

/// Once the escaper has seen a reason to quote it never forgets it.
pub proof fn lemma_not_qnone(rest: Seq<char>, q: QuoteState)
    requires
        !(q is QNone),
    ensures
        !(esc_scan(rest, q).0 is QNone),
    decreases rest.len(),
{
    if rest.len() > 0 {
        let (e, q1) = esc_char(rest[0], q);
        lemma_not_qnone(rest.subrange(1, rest.len() as int), q1);
    }
}

/// Inside a double-quoted span, the scanner recovers exactly the original
/// characters from the escaper's output, provided the escaper never picked
/// single quoting along the way.
proof fn lemma_dq_body(arg: Seq<char>, q: QuoteState, t: Seq<char>, ts: Seq<Seq<char>>)
    requires
        q is QNone || q is QSpace || q is QDouble,
        !(esc_scan(arg, q).0 is QSingle),
    ensures
        scan(LexState::DoubleQ, t, ts, esc_scan(arg, q).1) == (LexState::DoubleQ, t + arg, ts),
    decreases arg.len(),
{
    reveal_with_fuel(scan, 3);
    if arg.len() == 0 {
        assert(t + arg =~= t);
    } else {
        let c = arg[0];
        let tail = arg.subrange(1, arg.len() as int);
        let (e, q1) = esc_char(c, q);
        let rest_out = esc_scan(tail, q1).1;
        assert(esc_scan(arg, q).1 == e + rest_out);
        if c == '"' && !(q is QDouble) {
            lemma_qsingle_absorb(tail);
            assert(false);
        } else {
            lemma_scan_concat(LexState::DoubleQ, t, ts, e, rest_out);
            assert(seq![c].subrange(1, 1) =~= Seq::<char>::empty());
            assert(seq!['\\', c].subrange(1, 2) =~= seq![c]);
            assert(scan(LexState::DoubleQ, t, ts, e) == (LexState::DoubleQ, t.push(c), ts));
            lemma_dq_body(tail, q1, t.push(c), ts);
            assert(t.push(c) + tail =~= t + arg);
        }
    }
}

/// Inside a single-quoted span, the scanner recovers exactly the original
/// characters from the escaper's output, provided the escaper never picked
/// double quoting along the way.
proof fn lemma_sq_body(arg: Seq<char>, q: QuoteState, t: Seq<char>, ts: Seq<Seq<char>>)
    requires
        q is QNone || q is QSpace || q is QSingle,
        !(esc_scan(arg, q).0 is QDouble),
    ensures
        scan(LexState::SingleQ, t, ts, esc_scan(arg, q).1) == (LexState::SingleQ, t + arg, ts),
    decreases arg.len(),
{
    reveal_with_fuel(scan, 3);
    if arg.len() == 0 {
        assert(t + arg =~= t);
    } else {
        let c = arg[0];
        let tail = arg.subrange(1, arg.len() as int);
        let (e, q1) = esc_char(c, q);
        let rest_out = esc_scan(tail, q1).1;
        assert(esc_scan(arg, q).1 == e + rest_out);
        if c == '\'' && !(q is QSingle) {
            lemma_qdouble_absorb(tail);
            assert(false);
        } else {
            lemma_scan_concat(LexState::SingleQ, t, ts, e, rest_out);
            assert(seq![c].subrange(1, 1) =~= Seq::<char>::empty());
            assert(seq!['\\', c].subrange(1, 2) =~= seq![c]);
            assert(scan(LexState::SingleQ, t, ts, e) == (LexState::SingleQ, t.push(c), ts));
            lemma_sq_body(tail, q1, t.push(c), ts);
            assert(t.push(c) + tail =~= t + arg);
        }
    }
}

/// In a bare token, the scanner recovers exactly the original characters from
/// the escaper's output when the argument needed no quoting at all.
proof fn lemma_unq_body(arg: Seq<char>, t: Seq<char>, ts: Seq<Seq<char>>)
    requires
        esc_scan(arg, QuoteState::QNone).0 is QNone,
    ensures
        scan(LexState::Unquoted, t, ts, esc_scan(arg, QuoteState::QNone).1) == (
            LexState::Unquoted,
            t + arg,
            ts,
        ),
    decreases arg.len(),
{
    reveal_with_fuel(scan, 3);
    if arg.len() == 0 {
        assert(t + arg =~= t);
    } else {
        let c = arg[0];
        let tail = arg.subrange(1, arg.len() as int);
        let (e, q1) = esc_char(c, QuoteState::QNone);
        let rest_out = esc_scan(tail, q1).1;
        assert(esc_scan(arg, QuoteState::QNone).1 == e + rest_out);
        if !(q1 is QNone) {
            lemma_not_qnone(tail, q1);
            assert(false);
        } else {
            lemma_scan_concat(LexState::Unquoted, t, ts, e, rest_out);
            assert(seq![c].subrange(1, 1) =~= Seq::<char>::empty());
            assert(seq!['\\', c].subrange(1, 2) =~= seq![c]);
            assert(scan(LexState::Unquoted, t, ts, e) == (LexState::Unquoted, t.push(c), ts));
            lemma_unq_body(tail, t.push(c), ts);
            assert(t.push(c) + tail =~= t + arg);
        }
    }
}

/// From a delimiter, the scanner turns one escaped argument back into that
/// argument, ending inside a bare token.
proof fn lemma_arg_scan(arg: Seq<char>, ts: Seq<Seq<char>>)
    requires
        arg.len() > 0,
    ensures
        scan(LexState::Delim, Seq::empty(), ts, escape_seq(arg)) == (LexState::Unquoted, arg, ts),
{
    reveal_with_fuel(scan, 3);
    let (qf, out) = esc_scan(arg, QuoteState::QNone);
    match qf {
        QuoteState::QNone => {
            let c = arg[0];
            let tail = arg.subrange(1, arg.len() as int);
            let (e, q1) = esc_char(c, QuoteState::QNone);
            let rest_out = esc_scan(tail, q1).1;
            assert(escape_seq(arg) == e + rest_out);
            if !(q1 is QNone) {
                lemma_not_qnone(tail, q1);
                assert(false);
            }
            lemma_scan_concat(LexState::Delim, Seq::empty(), ts, e, rest_out);
            assert(seq![c].subrange(1, 1) =~= Seq::<char>::empty());
            assert(seq!['\\', c].subrange(1, 2) =~= seq![c]);
            assert(scan(LexState::Delim, Seq::empty(), ts, e) == (
                LexState::Unquoted,
                Seq::<char>::empty().push(c),
                ts,
            ));
            lemma_unq_body(tail, Seq::<char>::empty().push(c), ts);
            assert(Seq::<char>::empty().push(c) + tail =~= arg);
        },
        QuoteState::QSingle => {
            assert(escape_seq(arg) =~= seq!['\''] + (out + seq!['\'']));
            lemma_scan_concat(LexState::Delim, Seq::empty(), ts, seq!['\''], out + seq!['\'']);
            assert(seq!['\''].subrange(1, 1) =~= Seq::<char>::empty());
            lemma_scan_concat(LexState::SingleQ, Seq::empty(), ts, out, seq!['\'']);
            lemma_sq_body(arg, QuoteState::QNone, Seq::empty(), ts);
            assert(Seq::<char>::empty() + arg =~= arg);
        },
        _ => {
            assert(escape_seq(arg) =~= seq!['"'] + (out + seq!['"']));
            lemma_scan_concat(LexState::Delim, Seq::empty(), ts, seq!['"'], out + seq!['"']);
            assert(seq!['"'].subrange(1, 1) =~= Seq::<char>::empty());
            lemma_scan_concat(LexState::DoubleQ, Seq::empty(), ts, out, seq!['"']);
            lemma_dq_body(arg, QuoteState::QNone, Seq::empty(), ts);
            assert(Seq::<char>::empty() + arg =~= arg);
        },
    }
}

/// From a delimiter, the scanner turns the assembled suffix of an argument
/// list back into those arguments: the last one is left as the partial token,
/// the ones before it are emitted.
proof fn lemma_scan_tail(args: Seq<Seq<char>>, i: int, ts: Seq<Seq<char>>)
    requires
        0 <= i < args.len(),
        forall|j: int| i <= j < args.len() ==> args[j].len() > 0,
    ensures
        scan(
            LexState::Delim,
            Seq::empty(),
            ts,
            escape_seq(args[i]) + assemble_tail(args, i + 1),
        ) == (LexState::Unquoted, args[args.len() - 1], ts + args.subrange(i, args.len() - 1)),
    decreases args.len() - i,
{
    reveal_with_fuel(scan, 2);
    lemma_scan_concat(
        LexState::Delim,
        Seq::empty(),
        ts,
        escape_seq(args[i]),
        assemble_tail(args, i + 1),
    );
    lemma_arg_scan(args[i], ts);
    if i == args.len() - 1 {
        assert(assemble_tail(args, i + 1) =~= Seq::<char>::empty());
        assert(ts + args.subrange(i, args.len() - 1) =~= ts);
    } else {
        assert(assemble_tail(args, i + 1) =~= seq![' '] + (escape_seq(args[i + 1])
            + assemble_tail(args, i + 2)));
        lemma_scan_concat(
            LexState::Unquoted,
            args[i],
            ts,
            seq![' '],
            escape_seq(args[i + 1]) + assemble_tail(args, i + 2),
        );
        assert(seq![' '].subrange(1, 1) =~= Seq::<char>::empty());
        assert(scan(LexState::Unquoted, args[i], ts, seq![' ']) == (
            LexState::Delim,
            Seq::<char>::empty(),
            ts.push(args[i]),
        ));
        lemma_scan_tail(args, i + 1, ts.push(args[i]));
        assert(ts.push(args[i]) + args.subrange(i + 1, args.len() - 1) =~= ts + args.subrange(
            i,
            args.len() - 1,
        ));
    }
}

/// Round trip of the tokenizer: reparsing an assembled argument list
/// recovers exactly the argument values, wherever the caret is placed.  The
/// arguments must be non-empty -- an empty one leaves no trace in the
/// assembled line -- except for the sole empty argument of a bare marker,
/// which survives.
pub proof fn lemma_round_trip(args: Seq<Seq<char>>)
    requires
        args.len() > 0,
        (forall|i: int| 0 <= i < args.len() ==> args[i].len() > 0) || args =~= seq![
            Seq::<char>::empty(),
        ],
    ensures
        parse_ok(assemble_seq(args)),
        parse_args(assemble_seq(args)) == args,
{
    let s = assemble_seq(args);
    assert(s[0] == '/');
    if args =~= seq![Seq::<char>::empty()] && !(forall|i: int|
        0 <= i < args.len() ==> args[i].len() > 0) {
        reveal_with_fuel(scan, 2);
        assert(esc_scan(args[0], QuoteState::QNone) == (
            QuoteState::QNone,
            Seq::<char>::empty(),
        ));
        assert(escape_seq(args[0]) =~= Seq::<char>::empty());
        assert(assemble_tail(args, 1) =~= Seq::<char>::empty());
        assert(assemble_tail(args, 0) =~= Seq::<char>::empty());
        assert(s =~= seq!['/']);
        assert(s.subrange(1, 1) =~= Seq::<char>::empty());
        assert(scan_all(s) == (LexState::Delim, Seq::<char>::empty(), Seq::<Seq<char>>::empty()));
        assert(parse_args(s) =~= args);
    } else {
        assert(s.subrange(1, s.len() as int) =~= assemble_tail(args, 0));
        assert(assemble_tail(args, 0) =~= escape_seq(args[0]) + assemble_tail(args, 1));
        lemma_scan_tail(args, 0, Seq::empty());
        assert(Seq::<Seq<char>>::empty() + args.subrange(0, args.len() - 1) =~= args.subrange(
            0,
            args.len() - 1,
        ));
        assert(args.subrange(0, args.len() - 1).push(args[args.len() - 1]) =~= args);
    }
}

impl Command {
    /// Tokenizes a raw line.  The line must open with the marker `/`; single
    /// and double quotes suppress the space delimiter and the other quote,
    /// and a backslash takes the next character literally.  `cursor` is a
    /// character offset into the line; the returned `cursor` is the index of
    /// the argument it falls in, one past the end after a trailing delimiter.
    pub fn parse_with_cursor(string: &str, cursor: usize) -> (r: Result<Command, &'static str>)
        ensures
            parse_ok(string@) ==> {
                &&& r is Ok
                &&& r->Ok_0.args.deep_view() == parse_args(string@)
                &&& r->Ok_0.cursor == parse_cursor(string@, cursor as int)
            },
            !parse_ok(string@) ==> r is Err && r->Err_0@ == parse_fail_msg(string@),
    {
        let n = string.unicode_len();
        if n == 0 || string.get_char(0) != '/' {
            return Err("Missing starting /");
        }
        let mut st = LexState::Delim;
        let mut tok = String::new();
        let mut toks: Vec<String> = Vec::new();
        let mut cur: Option<usize> = if cursor == 0 {
            Some(0)
        } else {
            None
        };
        let mut i: usize = 1;
        while i < n
            invariant
                1 <= i <= n,
                n == string@.len(),
                string@[0] == '/',
                scan(LexState::Delim, Seq::empty(), Seq::empty(), string@.subrange(1, i as int))
                    == (st, tok@, toks.deep_view()),
                toks@.len() <= i,
                cur is Some <==> cursor < i,
                cur matches Some(tc) ==> tc == toks_upto(string@, cursor as int).len(),
            decreases n - i,
        {
            let c = string.get_char(i);
            let ghost g_st = st;
            let ghost g_tok = tok@;
            let ghost g_toks = toks.deep_view();
            proof {
                let pre = string@.subrange(1, i as int);
                assert(string@.subrange(1, i as int + 1) =~= pre + seq![c]);
                lemma_scan_concat(LexState::Delim, Seq::empty(), Seq::empty(), pre, seq![c]);
            }
            match st {
                LexState::Delim => {
                    if c == ' ' {
                    } else if c == '\'' {
                        st = LexState::SingleQ;
                    } else if c == '"' {
                        st = LexState::DoubleQ;
                    } else if c == '\\' {
                        st = LexState::UnquotedEsc;
                    } else {
                        push_char(&mut tok, c);
                        st = LexState::Unquoted;
                    }
                },
                LexState::Unquoted => {
                    if c == ' ' {
                        toks.push(tok);
                        tok = String::new();
                        st = LexState::Delim;
                    } else if c == '\'' {
                        st = LexState::SingleQ;
                    } else if c == '"' {
                        st = LexState::DoubleQ;
                    } else if c == '\\' {
                        st = LexState::UnquotedEsc;
                    } else {
                        push_char(&mut tok, c);
                    }
                },
                LexState::SingleQ => {
                    if c == '\'' {
                        st = LexState::Unquoted;
                    } else if c == '\\' {
                        st = LexState::SingleQEsc;
                    } else {
                        push_char(&mut tok, c);
                    }
                },
                LexState::DoubleQ => {
                    if c == '"' {
                        st = LexState::Unquoted;
                    } else if c == '\\' {
                        st = LexState::DoubleQEsc;
                    } else {
                        push_char(&mut tok, c);
                    }
                },
                LexState::UnquotedEsc => {
                    push_char(&mut tok, c);
                    st = LexState::Unquoted;
                },
                LexState::SingleQEsc => {
                    push_char(&mut tok, c);
                    st = LexState::SingleQ;
                },
                LexState::DoubleQEsc => {
                    push_char(&mut tok, c);
                    st = LexState::DoubleQ;
                },
            }
            proof {
                reveal_with_fuel(scan, 2);
                assert(seq![c][0] == c);
                assert(seq![c].subrange(1, 1) =~= Seq::<char>::empty());
                if toks.deep_view() != g_toks {
                    assert(toks.deep_view() =~= g_toks.push(g_tok));
                }
                assert(scan(g_st, g_tok, g_toks, seq![c]) == (st, tok@, toks.deep_view()));
            }
            if cursor == i && cur.is_none() {
                cur = Some(toks.len());
                proof {
                    assert(toks.deep_view().len() == toks@.len());
                }
            }
            i = i + 1;
        }
        proof {
            assert(string@.subrange(1, n as int) =~= string@.subrange(1, string@.len() as int));
            assert(string@.subrange(1, n as int) =~= string@.subrange(1, (n - 1) as int + 1));
        }
        let ghost g_toks = toks.deep_view();
        let token_cursor: usize;
        match st {
            LexState::Delim => {
                token_cursor = match cur {
                    Some(tc) => tc,
                    None => toks.len(),
                };
            },
            LexState::Unquoted => {
                toks.push(tok);
                proof {
                    assert(toks.deep_view() =~= g_toks.push(scan_all(string@).1));
                }
                token_cursor = match cur {
                    Some(tc) => tc,
                    None => toks.len() - 1,
                };
            },
            LexState::SingleQ | LexState::DoubleQ => {
                return Err("Missing closing quote");
            },
            LexState::UnquotedEsc | LexState::SingleQEsc | LexState::DoubleQEsc => {
                return Err("Missing escaped char");
            },
        }
        if toks.len() > 0 {
            Ok(Command { args: toks, cursor: token_cursor })
        } else {
            let mut args: Vec<String> = Vec::new();
            args.push(String::new());
            proof {
                assert(args.deep_view() =~= seq![Seq::<char>::empty()]);
            }
            Ok(Command { args, cursor: token_cursor })
        }
    }

    /// Re-escapes one argument, quoting it only when it holds a space or a
    /// quote character, and preferring to switch quote style over escaping
    /// the active quote.
    fn escape(arg: &str) -> (r: String)
        ensures
            r@ == escape_seq(arg@),
    {
        let n = arg.unicode_len();
        let mut q = QuoteState::QNone;
        let mut out = String::new();
        let mut i: usize = 0;
        proof {
            assert(arg@.subrange(0, n as int) =~= arg@);
            assert(out@ + esc_scan(arg@, QuoteState::QNone).1 =~= esc_scan(
                arg@,
                QuoteState::QNone,
            ).1);
        }
        while i < n
            invariant
                i <= n,
                n == arg@.len(),
                esc_scan(arg@, QuoteState::QNone).0 == esc_scan(
                    arg@.subrange(i as int, n as int),
                    q,
                ).0,
                esc_scan(arg@, QuoteState::QNone).1 == out@ + esc_scan(
                    arg@.subrange(i as int, n as int),
                    q,
                ).1,
            decreases n - i,
        {
            let c = arg.get_char(i);
            let ghost g_q = q;
            let ghost g_out = out@;
            if c == '\\' {
                push_char(&mut out, '\\');
                push_char(&mut out, '\\');
            } else if c == ' ' {
                push_char(&mut out, ' ');
                match q {
                    QuoteState::QNone => {
                        q = QuoteState::QSpace;
                    },
                    _ => {},
                }
            } else if c == '\'' {
                match q {
                    QuoteState::QSingle => {
                        push_char(&mut out, '\\');
                        push_char(&mut out, '\'');
                    },
                    QuoteState::QDouble => {
                        push_char(&mut out, '\'');
                    },
                    _ => {
                        push_char(&mut out, '\'');
                        q = QuoteState::QDouble;
                    },
                }
            } else if c == '"' {
                match q {
                    QuoteState::QSingle => {
                        push_char(&mut out, '"');
                    },
                    QuoteState::QDouble => {
                        push_char(&mut out, '\\');
                        push_char(&mut out, '"');
                    },
                    _ => {
                        push_char(&mut out, '"');
                        q = QuoteState::QSingle;
                    },
                }
            } else {
                push_char(&mut out, c);
            }
            proof {
                let rem = arg@.subrange(i as int, n as int);
                let rem2 = arg@.subrange(i as int + 1, n as int);
                assert(rem[0] == c);
                assert(rem.subrange(1, rem.len() as int) =~= rem2);
                assert(out@ =~= g_out + esc_char(c, g_q).0);
                assert(g_out + (esc_char(c, g_q).0 + esc_scan(rem2, q).1) =~= (g_out + esc_char(
                    c,
                    g_q,
                ).0) + esc_scan(rem2, q).1);
            }
            i = i + 1;
        }
        proof {
            assert(arg@.subrange(n as int, n as int) =~= Seq::<char>::empty());
            assert(out@ + Seq::<char>::empty() =~= out@);
        }
        match q {
            QuoteState::QNone => out,
            QuoteState::QSingle => {
                let mut r = String::new();
                push_char(&mut r, '\'');
                r.append(out.as_str());
                push_char(&mut r, '\'');
                proof {
                    assert(r@ =~= seq!['\''] + out@ + seq!['\'']);
                }
                r
            },
            _ => {
                let mut r = String::new();
                push_char(&mut r, '"');
                r.append(out.as_str());
                push_char(&mut r, '"');
                proof {
                    assert(r@ =~= seq!['"'] + out@ + seq!['"']);
                }
                r
            },
        }
    }

    /// Re-assembles the line for an argument list: the marker, then each
    /// argument escaped, joined by single spaces.
    pub fn assemble(&self) -> (r: String)
        ensures
            r@ == assemble_seq(self.args.deep_view()),
    {
        let ghost gargs = self.args.deep_view();
        let mut command = String::new();
        push_char(&mut command, '/');
        proof {
            assert(command@ =~= seq!['/']);
        }
        let mut i: usize = 0;
        while i < self.args.len()
            invariant
                i <= self.args.len(),
                gargs == self.args.deep_view(),
                command@ + assemble_tail(gargs, i as int) == assemble_seq(gargs),
            decreases self.args.len() - i,
        {
            let ghost g_cmd = command@;
            if i != 0 {
                push_char(&mut command, ' ');
            }
            let e = Self::escape(self.args[i].as_str());
            command.append(e.as_str());
            proof {
                assert(gargs[i as int] == self.args@[i as int]@);
                let sep: Seq<char> = if i == 0 {
                    Seq::empty()
                } else {
                    seq![' ']
                };
                assert(command@ =~= g_cmd + sep + escape_seq(gargs[i as int]));
                assert((g_cmd + sep + escape_seq(gargs[i as int])) + assemble_tail(
                    gargs,
                    i as int + 1,
                ) =~= g_cmd + (sep + escape_seq(gargs[i as int]) + assemble_tail(
                    gargs,
                    i as int + 1,
                )));
            }
            i = i + 1;
        }
        proof {
            assert(command@ + assemble_tail(gargs, self.args.len() as int) =~= command@);
        }
        command
    }

    /// Tokenizes a raw line, placing the caret past its end.
    pub fn try_from(string: &str) -> (r: Result<Command, &'static str>)
        ensures
            parse_ok(string@) ==> {
                &&& r is Ok
                &&& r->Ok_0.args.deep_view() == parse_args(string@)
                &&& r->Ok_0.cursor == parse_cursor(string@, string@.len() as int)
            },
            !parse_ok(string@) ==> r is Err && r->Err_0@ == parse_fail_msg(string@),
    {
        let n = string.unicode_len();
        Self::parse_with_cursor(string, n)
    }
}

} // verus!
