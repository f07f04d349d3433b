use vstd::prelude::*;

use crate::strutil::push_char;

verus! {

/// An address on the chat network: bare (just the account) or full (with a
/// resource naming one of its sessions).
#[derive(Debug, Clone)]
pub enum Jid {
    Bare(String),
    Full(String, String),
}

impl Jid {
    /// The bare part of the address.
    pub open spec fn spec_bare(self) -> Seq<char> {
        match self {
            Jid::Bare(b) => b@,
            Jid::Full(b, _) => b@,
        }
    }

    /// Whether two addresses carry the same text.
    pub open spec fn like(self, other: Jid) -> bool {
        match (self, other) {
            (Jid::Bare(a), Jid::Bare(b)) => a@ == b@,
            (Jid::Full(a, ra), Jid::Full(b, rb)) => a@ == b@ && ra@ == rb@,
            _ => false,
        }
    }

    /// Drops the resource, keeping the bare address.
    pub fn to_bare(&self) -> (r: String)
        ensures
            r@ == self.spec_bare(),
    {
        match self {
            Jid::Bare(b) => b.clone(),
            Jid::Full(b, _) => b.clone(),
        }
    }

    /// The full text of the address, resource included.
    pub fn full_text(&self) -> (r: String)
        ensures
            r@ == spec_jid_text(*self),
    {
        match self {
            Jid::Bare(b) => b.clone(),
            Jid::Full(b, res) => {
                let mut s = b.clone();
                push_char(&mut s, '/');
                s.append(res.as_str());
                s
            },
        }
    }

    /// An owned copy of the address.
    pub fn duplicate(&self) -> (r: Jid)
        ensures
            r == *self,
            r.like(*self),
    {
        match self {
            Jid::Bare(b) => Jid::Bare(b.clone()),
            Jid::Full(b, res) => Jid::Full(b.clone(), res.clone()),
        }
    }
}

/// The full text of an address: the bare part, then the resource after a
/// slash when there is one.
pub open spec fn spec_jid_text(j: Jid) -> Seq<char> {
    match j {
        Jid::Bare(b) => b@,
        Jid::Full(b, r) => b@ + seq!['/'] + r@,
    }
}

/// A chat message carried by the network: the transport-assigned identity,
/// the two endpoints (bare and full forms), and the text.
#[derive(Debug, Clone)]
pub struct XmppMessage {
    pub id: String,
    pub from: String,
    pub from_full: Jid,
    pub to: String,
    pub to_full: Jid,
    pub body: String,
}

/// A line the client itself reports to the user.
#[derive(Debug, Clone)]
pub struct LogMessage {
    pub id: String,
    pub body: String,
}

/// Anything the scrollback can display.
#[derive(Debug, Clone)]
pub enum Message {
    Incoming(XmppMessage),
    Outgoing(XmppMessage),
    Log(LogMessage),
}

/// Relies on uuid's `Uuid::new_v4` and its `Display` form: a freshly drawn
/// random identifier; nothing is promised of its value.  Like an allocation
/// failure, a failure of the operating system's entropy source aborts the
/// process inside the call.
#[verifier::external_body]
pub(crate) fn fresh_id() -> (r: String) {
    uuid::Uuid::new_v4().to_string()
}

impl Message {
    /// The identity used to recognize a message that is delivered twice.
    pub open spec fn spec_identity(self) -> Seq<char> {
        match self {
            Message::Incoming(m) => m.id@,
            Message::Outgoing(m) => m.id@,
            Message::Log(m) => m.id@,
        }
    }

    /// The text of the message.
    pub open spec fn spec_body(self) -> Seq<char> {
        match self {
            Message::Incoming(m) => m.body@,
            Message::Outgoing(m) => m.body@,
            Message::Log(m) => m.body@,
        }
    }

    /// Builds the record of a message received from the network.
    pub fn incoming(id: String, from_full: &Jid, to_full: &Jid, body: &str) -> (r: Message)
        ensures
            r is Incoming,
            r->Incoming_0.id@ == id@,
            r->Incoming_0.from@ == from_full.spec_bare(),
            r->Incoming_0.from_full.like(*from_full),
            r->Incoming_0.to@ == to_full.spec_bare(),
            r->Incoming_0.to_full.like(*to_full),
            r->Incoming_0.body@ == body@,
    {
        Message::Incoming(
            XmppMessage {
                id,
                from: from_full.to_bare(),
                from_full: from_full.duplicate(),
                to: to_full.to_bare(),
                to_full: to_full.duplicate(),
                body: crate::strutil::str_to_string(body),
            },
        )
    }

    /// Builds the record of a message this client sends.
    pub fn outgoing(id: String, from_full: &Jid, to_full: &Jid, body: &str) -> (r: Message)
        ensures
            r is Outgoing,
            r->Outgoing_0.id@ == id@,
            r->Outgoing_0.from@ == from_full.spec_bare(),
            r->Outgoing_0.from_full.like(*from_full),
            r->Outgoing_0.to@ == to_full.spec_bare(),
            r->Outgoing_0.to_full.like(*to_full),
            r->Outgoing_0.body@ == body@,
    {
        Message::Outgoing(
            XmppMessage {
                id,
                from: from_full.to_bare(),
                from_full: from_full.duplicate(),
                to: to_full.to_bare(),
                to_full: to_full.duplicate(),
                body: crate::strutil::str_to_string(body),
            },
        )
    }

    /// Builds a log line, identified by a freshly generated id so that two
    /// distinct reports are never deduplicated against each other.
    pub fn log(msg: String) -> (r: Message)
        ensures
            r is Log,
            r->Log_0.body@ == msg@,
    {
        Message::Log(LogMessage { id: fresh_id(), body: msg })
    }

    /// The text of the message.
    pub fn body(&self) -> (r: &str)
        ensures
            r@ == self.spec_body(),
    {
        match self {
            Message::Incoming(m) => m.body.as_str(),
            Message::Outgoing(m) => m.body.as_str(),
            Message::Log(m) => m.body.as_str(),
        }
    }

    /// An owned copy of the message.
    pub fn duplicate(&self) -> (r: Message)
        ensures
            r == *self,
    {
        match self {
            Message::Incoming(m) => Message::Incoming(
                XmppMessage {
                    id: m.id.clone(),
                    from: m.from.clone(),
                    from_full: m.from_full.duplicate(),
                    to: m.to.clone(),
                    to_full: m.to_full.duplicate(),
                    body: m.body.clone(),
                },
            ),
            Message::Outgoing(m) => Message::Outgoing(
                XmppMessage {
                    id: m.id.clone(),
                    from: m.from.clone(),
                    from_full: m.from_full.duplicate(),
                    to: m.to.clone(),
                    to_full: m.to_full.duplicate(),
                    body: m.body.clone(),
                },
            ),
            Message::Log(m) => Message::Log(
                LogMessage { id: m.id.clone(), body: m.body.clone() },
            ),
        }
    }

    /// The identity used for deduplication.
    pub fn identity(&self) -> (r: &str)
        ensures
            r@ == self.spec_identity(),
    {
        match self {
            Message::Incoming(m) => m.id.as_str(),
            Message::Outgoing(m) => m.id.as_str(),
            Message::Log(m) => m.id.as_str(),
        }
    }
}

/// Splits a text into display lines at newline characters: a trailing newline
/// closes the last line without opening an empty one, and an empty text has
/// no lines at all.
pub open spec fn spec_lines(s: Seq<char>) -> Seq<Seq<char>>
    decreases s.len(),
{
    if s.len() == 0 {
        Seq::empty()
    } else {
        let cut = first_nl(s, 0);
        if 0 <= cut && cut < s.len() {
            seq![s.subrange(0, cut)] + spec_lines(s.subrange(cut + 1, s.len() as int))
        } else {
            seq![s]
        }
    }
}

/// The index of the first newline at or after `i`, or the length if none.
pub open spec fn first_nl(s: Seq<char>, i: int) -> int
    decreases s.len() - i,
{
    if i < 0 || i >= s.len() {
        s.len() as int
    } else if s[i] == '\n' {
        i
    } else {
        first_nl(s, i + 1)
    }
}

/// Splits a text into its display lines.
pub fn split_lines(s: &str) -> (r: Vec<String>)
    ensures
        r.deep_view() == spec_lines(s@),
{
    let n = s.unicode_len();
    let mut r: Vec<String> = Vec::new();
    let mut line = String::new();
    let mut start: usize = 0;
    let mut i: usize = 0;
    proof {
        assert(s@.subrange(0, n as int) =~= s@);
        assert(line@ =~= s@.subrange(0, 0));
        assert(r.deep_view() + spec_lines(s@) =~= spec_lines(s@));
    }
    while i < n
        invariant
            0 <= start <= i <= n,
            n == s@.len(),
            line@ == s@.subrange(start as int, i as int),
            forall|j: int| start <= j < i ==> s@[j] != '\n',
            r.deep_view() + spec_lines(s@.subrange(start as int, n as int)) == spec_lines(s@),
        decreases n - i,
    {
        let c = s.get_char(i);
        if c == '\n' {
            proof {
                let rest = s@.subrange(start as int, n as int);
                assert(first_nl(s@, start as int) == i) by {
                    lemma_first_nl_found(s@, start as int, i as int);
                }
                lemma_first_nl_sub(s@, start as int);
                assert(rest.subrange(0, (i - start) as int) =~= s@.subrange(
                    start as int,
                    i as int,
                ));
                assert(rest.subrange((i - start) as int + 1, rest.len() as int) =~= s@.subrange(
                    i as int + 1,
                    n as int,
                ));
                assert(r.deep_view().push(line@) + spec_lines(
                    s@.subrange(i as int + 1, n as int),
                ) =~= r.deep_view() + spec_lines(s@.subrange(start as int, n as int)));
            }
            let ghost g_r = r.deep_view();
            r.push(line);
            proof {
                assert(r.deep_view() =~= g_r.push(s@.subrange(start as int, i as int)));
            }
            line = String::new();
            start = i + 1;
            proof {
                assert(line@ =~= s@.subrange(start as int, i as int + 1));
            }
        } else {
            push_char(&mut line, c);
            proof {
                assert(line@ =~= s@.subrange(start as int, i as int + 1));
            }
        }
        i = i + 1;
    }
    if start < n {
        proof {
            let rest = s@.subrange(start as int, n as int);
            lemma_first_nl_sub(s@, start as int);
            assert(first_nl(s@, start as int) == n) by {
                lemma_first_nl_none(s@, start as int, n as int);
            }
            assert(rest =~= line@);
            assert(spec_lines(rest) =~= seq![rest]);
            assert(r.deep_view().push(line@) =~= r.deep_view() + spec_lines(
                s@.subrange(start as int, n as int),
            ));
        }
        let ghost g_r = r.deep_view();
        r.push(line);
        proof {
            assert(r.deep_view() =~= g_r.push(s@.subrange(start as int, n as int)));
        }
    } else {
        proof {
            assert(s@.subrange(start as int, n as int) =~= Seq::<char>::empty());
            assert(r.deep_view() + spec_lines(Seq::<char>::empty()) =~= r.deep_view());
        }
    }
    r
}

/// `first_nl` points at a newline it has found.
proof fn lemma_first_nl_found(s: Seq<char>, start: int, i: int)
    requires
        0 <= start <= i < s.len(),
        s[i] == '\n',
        forall|j: int| start <= j < i ==> s[j] != '\n',
    ensures
        first_nl(s, start) == i,
    decreases i - start,
{
    if start < i {
        lemma_first_nl_found(s, start + 1, i);
    }
}

/// With no newline from `start` on, `first_nl` answers the length.
proof fn lemma_first_nl_none(s: Seq<char>, start: int, n: int)
    requires
        0 <= start <= n == s.len(),
        forall|j: int| start <= j < n ==> s[j] != '\n',
    ensures
        first_nl(s, start) == n,
    decreases n - start,
{
    if start < n {
        lemma_first_nl_none(s, start + 1, n);
    }
}

/// `first_nl` over a suffix mirrors `first_nl` over the whole, shifted by
/// the offset `d` of the suffix.
proof fn lemma_first_nl_align(s: Seq<char>, rest: Seq<char>, d: int, i: int)
    requires
        0 <= d,
        d + rest.len() == s.len(),
        forall|k: int| 0 <= k < rest.len() ==> rest[k] == s[k + d],
        0 <= i <= rest.len(),
    ensures
        first_nl(s, i + d) == first_nl(rest, i) + d,
    decreases rest.len() - i,
{
    if i < rest.len() && rest[i] != '\n' {
        lemma_first_nl_align(s, rest, d, i + 1);
    }
}

/// Searching within a suffix finds the same newline, shifted.
proof fn lemma_first_nl_sub(s: Seq<char>, start: int)
    requires
        0 <= start <= s.len(),
    ensures
        first_nl(s.subrange(start, s.len() as int), 0) == first_nl(s, start) - start,
{
    lemma_first_nl_align(s, s.subrange(start, s.len() as int), start, 0);
}

/// One display row of the scrollback: an optionally empty sender head,
/// painted in its own style, and the row's text.
#[derive(Debug, Clone)]
pub struct DisplayRow {
    pub head: String,
    pub text: String,
}

/// The mathematical form of a display row.
pub ghost struct RowView {
    pub head: Seq<char>,
    pub text: Seq<char>,
}

impl View for DisplayRow {
    type V = RowView;

    open spec fn view(&self) -> RowView {
        RowView { head: self.head@, text: self.text@ }
    }
}

impl DeepView for DisplayRow {
    type V = RowView;

    open spec fn deep_view(&self) -> RowView {
        self.view()
    }
}

/// Rows with no sender head, one per line.
pub open spec fn plain_rows(lines: Seq<Seq<char>>) -> Seq<RowView>
    decreases lines,
{
    if lines.len() == 0 {
        Seq::empty()
    } else {
        seq![RowView { head: Seq::empty(), text: lines[0] }] + plain_rows(
            lines.subrange(1, lines.len() as int),
        )
    }
}

/// `plain_rows` maps each line, in place.
pub proof fn lemma_plain_rows(lines: Seq<Seq<char>>)
    ensures
        plain_rows(lines).len() == lines.len(),
        forall|i: int|
            0 <= i < lines.len() ==> #[trigger] plain_rows(lines)[i] == (RowView {
                head: Seq::empty(),
                text: lines[i],
            }),
    decreases lines.len(),
{
    if lines.len() > 0 {
        let tail = lines.subrange(1, lines.len() as int);
        lemma_plain_rows(tail);
        assert forall|i: int|
            0 <= i < lines.len() implies #[trigger] plain_rows(lines)[i] == (RowView {
            head: Seq::empty(),
            text: lines[i],
        }) by {
            if i > 0 {
                assert(plain_rows(lines)[i] == plain_rows(tail)[i - 1]);
                assert(tail[i - 1] == lines[i]);
            }
        }
    }
}

/// Rows whose first line carries the sender head.
pub open spec fn headed_rows(head: Seq<char>, lines: Seq<Seq<char>>) -> Seq<RowView> {
    if lines.len() == 0 {
        Seq::empty()
    } else {
        seq![RowView { head, text: lines[0] }] + plain_rows(lines.subrange(1, lines.len() as int))
    }
}

/// The display rows of a message: one row per line of its body; for a
/// message that went over the network the first row's head names the sender.
pub open spec fn spec_message_rows(m: Message) -> Seq<RowView> {
    match m {
        Message::Log(lm) => plain_rows(spec_lines(lm.body@)),
        Message::Incoming(xm) => headed_rows(xm.from@ + ": "@, spec_lines(xm.body@)),
        Message::Outgoing(xm) => headed_rows(xm.from@ + ": "@, spec_lines(xm.body@)),
    }
}

/// Renders a message into its display rows.
pub fn message_rows(m: &Message) -> (r: Vec<DisplayRow>)
    ensures
        r.deep_view() == spec_message_rows(*m),
{
    match m {
        Message::Log(lm) => rows_of(None, &lm.body),
        Message::Incoming(xm) => rows_of(Some(&xm.from), &xm.body),
        Message::Outgoing(xm) => rows_of(Some(&xm.from), &xm.body),
    }
}

/// Splits a body into rows, the first one headed by the sender if one is
/// given.
fn rows_of(from: Option<&String>, body: &String) -> (r: Vec<DisplayRow>)
    ensures
        from matches Some(f) ==> r.deep_view() == headed_rows(f@ + ": "@, spec_lines(body@)),
        from is None ==> r.deep_view() == plain_rows(spec_lines(body@)),
{
    let lines = split_lines(body.as_str());
    let ghost glines = lines.deep_view();
    proof {
        lemma_plain_rows(glines);
        lemma_plain_rows(glines.subrange(1, glines.len() as int));
    }
    let mut rows: Vec<DisplayRow> = Vec::new();
    let mut i: usize = 0;
    while i < lines.len()
        invariant
            i <= lines@.len(),
            glines == lines.deep_view(),
            glines.len() == lines@.len(),
            rows.deep_view().len() == i,
            forall|j: int|
                1 <= j < i ==> #[trigger] rows.deep_view()[j] == (RowView {
                    head: Seq::empty(),
                    text: glines[j],
                }),
            i > 0 ==> rows.deep_view()[0] == (RowView {
                head: match from {
                    Some(f) => f@ + ": "@,
                    None => Seq::empty(),
                },
                text: glines[0],
            }),
        decreases lines@.len() - i,
    {
        let head: String = if i == 0 {
            match from {
                Some(f) => {
                    let mut h = f.clone();
                    h.append(": ");
                    h
                },
                None => String::new(),
            }
        } else {
            String::new()
        };
        let ghost grows = rows.deep_view();
        let text = lines[i].clone();
        proof {
            assert(text@ == glines[i as int]);
        }
        rows.push(DisplayRow { head, text });
        proof {
            assert(rows.deep_view() =~= grows.push(rows@[grows.len() as int].deep_view()));
        }
        i = i + 1;
    }
    proof {
        let expected = match from {
            Some(f) => headed_rows(f@ + ": "@, glines),
            None => plain_rows(glines),
        };
        if glines.len() > 0 {
            assert(expected.len() == glines.len());
            assert forall|j: int| 0 <= j < glines.len() implies rows.deep_view()[j]
                == expected[j] by {
                if j > 0 {
                    assert(expected[j] == plain_rows(glines.subrange(1, glines.len() as int))[j
                        - 1]);
                    assert(glines.subrange(1, glines.len() as int)[j - 1] == glines[j]);
                }
            }
        }
        assert(rows.deep_view() =~= expected);
    }
    rows
}

} // verus!
