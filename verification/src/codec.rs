use vstd::prelude::*;

verus! {

/// A malformed incoming envelope. The message is dropped and the connection
/// stays open.
#[derive(Debug, PartialEq, Eq, Structural)]
pub enum DecodeError {
    Malformed,
}

/// The decoded unit of the wire protocol: a closed tagged variant. Unknown
/// or malformed frames never decode; they surface as [`DecodeError`].
#[derive(Debug)]
pub enum Envelope {
    /// An activation request: identifier and credential.
    ActivationMessage { identifier: String, credential: String },
    /// A request to relay a payload to another identifier.
    SendMail { next: String, mail: String },
    /// A heartbeat; refreshes the sender's last-seen time and nothing else.
    Empty,
}

/// The mathematical value of an [`Envelope`].
pub enum EnvelopeView {
    ActivationMessage { identifier: Seq<char>, credential: Seq<char> },
    SendMail { next: Seq<char>, mail: Seq<char> },
    Empty,
}

impl View for Envelope {
    type V = EnvelopeView;

    open spec fn view(&self) -> EnvelopeView {
        match self {
            Envelope::ActivationMessage { identifier, credential } =>
                EnvelopeView::ActivationMessage { identifier: identifier@, credential: credential@ },
            Envelope::SendMail { next, mail } =>
                EnvelopeView::SendMail { next: next@, mail: mail@ },
            Envelope::Empty => EnvelopeView::Empty,
        }
    }
}

/// Whether a character is a control character, which never stands raw
/// inside a quoted wire string.
pub open spec fn is_control(c: char) -> bool {
    (c as u32) < 32
}

/// The characters with a one-letter backslash escape.
pub open spec fn is_short_escaped_char(c: char) -> bool {
    c == '"' || c == '\\' || c == '\n' || c == '\t' || c == '\r' || c == '\u{8}' || c == '\u{c}'
}

/// The escape letter of a short-escaped character.
pub open spec fn short_escape_of(c: char) -> char {
    if c == '\n' {
        'n'
    } else if c == '\t' {
        't'
    } else if c == '\r' {
        'r'
    } else if c == '\u{8}' {
        'b'
    } else if c == '\u{c}' {
        'f'
    } else {
        c
    }
}

/// The character a short escape letter stands for.
pub open spec fn short_unescape(d: char) -> char {
    if d == 'n' {
        '\n'
    } else if d == 't' {
        '\t'
    } else if d == 'r' {
        '\r'
    } else if d == 'b' {
        '\u{8}'
    } else if d == 'f' {
        '\u{c}'
    } else {
        d
    }
}

/// Whether a letter is a short escape letter.
pub open spec fn is_short_escape(d: char) -> bool {
    d == '"' || d == '\\' || d == 'n' || d == 't' || d == 'r' || d == 'b' || d == 'f'
}

/// The lower-case hex digit of a four-bit value.
pub open spec fn hex_digit(n: int) -> char {
    if n == 0 {
        '0'
    } else if n == 1 {
        '1'
    } else if n == 2 {
        '2'
    } else if n == 3 {
        '3'
    } else if n == 4 {
        '4'
    } else if n == 5 {
        '5'
    } else if n == 6 {
        '6'
    } else if n == 7 {
        '7'
    } else if n == 8 {
        '8'
    } else if n == 9 {
        '9'
    } else if n == 10 {
        'a'
    } else if n == 11 {
        'b'
    } else if n == 12 {
        'c'
    } else if n == 13 {
        'd'
    } else if n == 14 {
        'e'
    } else {
        'f'
    }
}

/// The value of a lower-case hex digit, or a negative number for any other
/// character.
pub open spec fn hex_val(c: char) -> int {
    if c == '0' {
        0
    } else if c == '1' {
        1
    } else if c == '2' {
        2
    } else if c == '3' {
        3
    } else if c == '4' {
        4
    } else if c == '5' {
        5
    } else if c == '6' {
        6
    } else if c == '7' {
        7
    } else if c == '8' {
        8
    } else if c == '9' {
        9
    } else if c == 'a' {
        10
    } else if c == 'b' {
        11
    } else if c == 'c' {
        12
    } else if c == 'd' {
        13
    } else if c == 'e' {
        14
    } else if c == 'f' {
        15
    } else {
        -1
    }
}

/// Whether two hex digits spell the canonical `\u00..` escape of a control
/// character that has no shorter escape.
pub open spec fn is_ctrl_escape_pair(h: char, l: char) -> bool {
    hex_val(h) >= 0 && hex_val(l) >= 0 && {
        let v = 16 * hex_val(h) + hex_val(l);
        v < 32 && !(v == 8 || v == 9 || v == 10 || v == 12 || v == 13)
    }
}

/// The control character two hex digits spell.
pub open spec fn ctrl_char(h: char, l: char) -> char {
    ((16 * hex_val(h) + hex_val(l)) as u8) as char
}

/// How one character is written inside a quoted wire string: quote,
/// backslash and the five short-escaped control characters carry a
/// one-letter backslash escape, every other control character carries its
/// canonical `\u00..` escape with lower-case hex, and everything else
/// stands as itself.
pub open spec fn escaped_char(c: char) -> Seq<char> {
    if is_short_escaped_char(c) {
        seq!['\\', short_escape_of(c)]
    } else if is_control(c) {
        seq![
            '\\',
            'u',
            '0',
            '0',
            hex_digit((c as u32) as int / 16),
            hex_digit((c as u32) as int % 16),
        ]
    } else {
        seq![c]
    }
}

/// The escaped form of a whole string.
pub open spec fn escape(s: Seq<char>) -> Seq<char>
    decreases s.len(),
{
    if s.len() == 0 {
        Seq::empty()
    } else {
        escaped_char(s[0]) + escape(s.subrange(1, s.len() as int))
    }
}

/// Scans a quoted wire string from position `i` (just past the opening
/// quote) to its closing quote: returns the unescaped content and the
/// position just past the closing quote, or nothing if the input ends, an
/// unknown or non-canonical escape appears, or a control character stands
/// raw before the string closes.
pub open spec fn scan_string(s: Seq<char>, i: int) -> Option<(Seq<char>, int)>
    decreases s.len() - i,
{
    if i < 0 || i >= s.len() {
        None
    } else if s[i] == '"' {
        Some((Seq::empty(), i + 1))
    } else if s[i] == '\\' {
        if i + 1 < s.len() && is_short_escape(s[i + 1]) {
            match scan_string(s, i + 2) {
                Some(t) => Some((seq![short_unescape(s[i + 1])] + t.0, t.1)),
                None => None,
            }
        } else if i + 5 < s.len() && s[i + 1] == 'u' && s[i + 2] == '0' && s[i + 3] == '0'
            && is_ctrl_escape_pair(s[i + 4], s[i + 5]) {
            match scan_string(s, i + 6) {
                Some(t) => Some((seq![ctrl_char(s[i + 4], s[i + 5])] + t.0, t.1)),
                None => None,
            }
        } else {
            None
        }
    } else if is_control(s[i]) {
        None
    } else {
        match scan_string(s, i + 1) {
            Some(t) => Some((seq![s[i]] + t.0, t.1)),
            None => None,
        }
    }
}

/// Whether the token stands in `s` at position `i`.
pub open spec fn tok_at(s: Seq<char>, i: int, tok: Seq<char>) -> bool {
    0 <= i && i + tok.len() <= s.len() && s.subrange(i, i + tok.len()) == tok
}

pub open spec fn quote_tok() -> Seq<char> {
    seq!['"']
}

pub open spec fn empty_tok() -> Seq<char> {
    "\"Empty\""@
}

pub open spec fn act_open() -> Seq<char> {
    "{\"ActivationMessage\":[\""@
}

pub open spec fn act_mid() -> Seq<char> {
    ",\""@
}

pub open spec fn act_close() -> Seq<char> {
    "\"]}"@
}

pub open spec fn send_open() -> Seq<char> {
    "{\"SendMail\":{\"next\":\""@
}

pub open spec fn send_mid() -> Seq<char> {
    ",\"mail\":\""@
}

pub open spec fn send_close() -> Seq<char> {
    "\"}}"@
}

/// The wire form of an envelope.
pub open spec fn encode_envelope(e: EnvelopeView) -> Seq<char> {
    match e {
        EnvelopeView::ActivationMessage { identifier, credential } =>
            act_open() + escape(identifier) + quote_tok() + act_mid() + escape(credential) + act_close(),
        EnvelopeView::SendMail { next, mail } =>
            send_open() + escape(next) + quote_tok() + send_mid() + escape(mail) + send_close(),
        EnvelopeView::Empty => empty_tok(),
    }
}

/// The wire grammar: which frames decode, and to what. A frame is exactly
/// one of the three envelope forms; anything else parses to nothing.
pub open spec fn parse_envelope(s: Seq<char>) -> Option<EnvelopeView> {
    if s == empty_tok() {
        Some(EnvelopeView::Empty)
    } else if tok_at(s, 0, act_open()) {
        match scan_string(s, act_open().len() as int) {
            Some(p1) => if tok_at(s, p1.1, act_mid()) {
                match scan_string(s, p1.1 + act_mid().len()) {
                    Some(p2) => if p2.1 + 2 == s.len() && tok_at(s, p2.1, "]}"@) {
                        Some(EnvelopeView::ActivationMessage { identifier: p1.0, credential: p2.0 })
                    } else {
                        None
                    },
                    None => None,
                }
            } else {
                None
            },
            None => None,
        }
    } else if tok_at(s, 0, send_open()) {
        match scan_string(s, send_open().len() as int) {
            Some(p1) => if tok_at(s, p1.1, send_mid()) {
                match scan_string(s, p1.1 + send_mid().len()) {
                    Some(p2) => if p2.1 + 2 == s.len() && tok_at(s, p2.1, "}}"@) {
                        Some(EnvelopeView::SendMail { next: p1.0, mail: p2.0 })
                    } else {
                        None
                    },
                    None => None,
                }
            } else {
                None
            },
            None => None,
        }
    } else {
        None
    }
}

proof fn lemma_short_escape_roundtrip(c: char)
    requires
        is_short_escaped_char(c),
    ensures
        is_short_escape(short_escape_of(c)),
        short_unescape(short_escape_of(c)) == c,
{
}

proof fn lemma_short_unescape_roundtrip(d: char)
    requires
        is_short_escape(d),
    ensures
        is_short_escaped_char(short_unescape(d)),
        short_escape_of(short_unescape(d)) == d,
{
}

proof fn lemma_hex_digit_val(n: int)
    requires
        0 <= n < 16,
    ensures
        hex_val(hex_digit(n)) == n,
{
}

proof fn lemma_hex_val_digit(c: char)
    requires
        hex_val(c) >= 0,
    ensures
        hex_digit(hex_val(c)) == c,
        hex_val(c) < 16,
{
}

/// A control character without a short escape is spelled by exactly the
/// hex pair its escape carries.
proof fn lemma_ctrl_char_escape(c: char)
    requires
        is_control(c),
        !is_short_escaped_char(c),
    ensures
        ({
            let v = (c as u32) as int;
            &&& is_ctrl_escape_pair(hex_digit(v / 16), hex_digit(v % 16))
            &&& ctrl_char(hex_digit(v / 16), hex_digit(v % 16)) == c
        }),
{
    broadcast use vstd::utf8::char_u32_cast;

    let v = (c as u32) as int;
    lemma_hex_digit_val(v / 16);
    lemma_hex_digit_val(v % 16);
    assert(16 * (v / 16) + v % 16 == v);
}

/// A canonical hex pair spells a control character whose escape carries
/// exactly that pair back.
proof fn lemma_ctrl_pair_char(h: char, l: char)
    requires
        is_ctrl_escape_pair(h, l),
    ensures
        ({
            let c = ctrl_char(h, l);
            &&& is_control(c)
            &&& !is_short_escaped_char(c)
            &&& escaped_char(c) == seq!['\\', 'u', '0', '0', h, l]
        }),
{
    broadcast use vstd::utf8::char_u32_cast;

    lemma_hex_val_digit(h);
    lemma_hex_val_digit(l);
    let v = 16 * hex_val(h) + hex_val(l);
    let c = ctrl_char(h, l);
    assert((c as u32) as int == v);
    assert(v / 16 == hex_val(h) && v % 16 == hex_val(l));
    assert(escaped_char(c) =~= seq!['\\', 'u', '0', '0', h, l]);
}

/// The scanner accepts every escaped string: where the characters from `i`
/// on are the escaped form of `t` followed by a closing quote, the scan
/// succeeds and recovers exactly `t`.
pub proof fn lemma_scan_escape(s: Seq<char>, i: int, t: Seq<char>)
    requires
        0 <= i,
        i + escape(t).len() + 1 <= s.len(),
        s.subrange(i, i + escape(t).len() + 1) == escape(t) + quote_tok(),
    ensures
        scan_string(s, i) == Some((t, i + escape(t).len() + 1)),
    decreases t.len(),
{
    let e = escape(t);
    let sub = s.subrange(i, i + e.len() + 1);
    if t.len() == 0 {
        assert(e =~= Seq::<char>::empty());
        assert(s[i] == sub[0]);
        assert(t =~= Seq::<char>::empty());
    } else {
        let c = t[0];
        let t1 = t.subrange(1, t.len() as int);
        assert(e == escaped_char(c) + escape(t1));
        let e1 = escape(t1);
        if is_short_escaped_char(c) {
            lemma_short_escape_roundtrip(c);
            assert(s[i] == sub[0] && sub[0] == '\\');
            assert(s[i + 1] == sub[1] && sub[1] == short_escape_of(c));
            assert(s.subrange(i + 2, i + 2 + e1.len() + 1) =~= e1 + quote_tok()) by {
                assert(forall|j: int| i + 2 <= j < i + 2 + e1.len() + 1 ==> #[trigger] s[j] == sub[j - i]);
            }
            lemma_scan_escape(s, i + 2, t1);
            assert(seq![short_unescape(s[i + 1])] + t1 =~= t);
        } else if is_control(c) {
            let v = (c as u32) as int;
            lemma_ctrl_char_escape(c);
            assert(s[i] == sub[0] && sub[0] == '\\');
            assert(s[i + 1] == sub[1] && sub[1] == 'u');
            assert(s[i + 2] == sub[2] && sub[2] == '0');
            assert(s[i + 3] == sub[3] && sub[3] == '0');
            assert(s[i + 4] == sub[4] && sub[4] == hex_digit(v / 16));
            assert(s[i + 5] == sub[5] && sub[5] == hex_digit(v % 16));
            assert(s.subrange(i + 6, i + 6 + e1.len() + 1) =~= e1 + quote_tok()) by {
                assert(forall|j: int| i + 6 <= j < i + 6 + e1.len() + 1 ==> #[trigger] s[j] == sub[j - i]);
            }
            lemma_scan_escape(s, i + 6, t1);
            assert(seq![ctrl_char(s[i + 4], s[i + 5])] + t1 =~= t);
        } else {
            assert(s[i] == sub[0] && sub[0] == c);
            assert(s.subrange(i + 1, i + 1 + e1.len() + 1) =~= e1 + quote_tok()) by {
                assert(forall|j: int| i + 1 <= j < i + 1 + e1.len() + 1 ==> #[trigger] s[j] == sub[j - i]);
            }
            lemma_scan_escape(s, i + 1, t1);
            assert(seq![s[i]] + t1 =~= t);
        }
    }
}

/// The scanner accepts only escaped strings: a successful scan from `i`
/// means the characters between `i` and the end position are exactly the
/// escaped form of the recovered string followed by its closing quote.
pub proof fn lemma_scan_sound(s: Seq<char>, i: int)
    requires
        0 <= i,
    ensures
        (match scan_string(s, i) {
            Some(p) => {
                &&& i < p.1 <= s.len()
                &&& p.1 == i + escape(p.0).len() + 1
                &&& s.subrange(i, p.1) == escape(p.0) + quote_tok()
            },
            None => true,
        }),
    decreases s.len() - i,
{
    if i >= s.len() {
    } else if s[i] == '"' {
        assert(escape(Seq::<char>::empty()) =~= Seq::<char>::empty());
        assert(s.subrange(i, i + 1) =~= escape(Seq::<char>::empty()) + quote_tok());
    } else if s[i] == '\\' {
        if i + 1 < s.len() && is_short_escape(s[i + 1]) {
            lemma_scan_sound(s, i + 2);
            match scan_string(s, i + 2) {
                Some(p) => {
                    let t0 = seq![short_unescape(s[i + 1])] + p.0;
                    lemma_short_unescape_roundtrip(s[i + 1]);
                    assert(escape(t0) == escaped_char(t0[0]) + escape(t0.subrange(1, t0.len() as int)));
                    assert(t0.subrange(1, t0.len() as int) =~= p.0);
                    assert(escaped_char(t0[0]) =~= seq!['\\', s[i + 1]]);
                    assert(s.subrange(i, p.1) =~= escape(t0) + quote_tok()) by {
                        assert(forall|j: int| i + 2 <= j < p.1 ==>
                            #[trigger] s[j] == s.subrange(i + 2, p.1)[j - (i + 2)]);
                    }
                },
                None => {},
            }
        } else if i + 5 < s.len() && s[i + 1] == 'u' && s[i + 2] == '0' && s[i + 3] == '0'
            && is_ctrl_escape_pair(s[i + 4], s[i + 5]) {
            lemma_scan_sound(s, i + 6);
            match scan_string(s, i + 6) {
                Some(p) => {
                    let t0 = seq![ctrl_char(s[i + 4], s[i + 5])] + p.0;
                    lemma_ctrl_pair_char(s[i + 4], s[i + 5]);
                    assert(escape(t0) == escaped_char(t0[0]) + escape(t0.subrange(1, t0.len() as int)));
                    assert(t0.subrange(1, t0.len() as int) =~= p.0);
                    assert(s.subrange(i, p.1) =~= escape(t0) + quote_tok()) by {
                        assert(forall|j: int| i + 6 <= j < p.1 ==>
                            #[trigger] s[j] == s.subrange(i + 6, p.1)[j - (i + 6)]);
                    }
                },
                None => {},
            }
        }
    } else if is_control(s[i]) {
    } else {
        lemma_scan_sound(s, i + 1);
        match scan_string(s, i + 1) {
            Some(p) => {
                let t0 = seq![s[i]] + p.0;
                assert(!is_short_escaped_char(s[i]));
                assert(escape(t0) == escaped_char(t0[0]) + escape(t0.subrange(1, t0.len() as int)));
                assert(t0.subrange(1, t0.len() as int) =~= p.0);
                assert(s.subrange(i, p.1) =~= escape(t0) + quote_tok()) by {
                    assert(forall|j: int| i + 1 <= j < p.1 ==>
                        #[trigger] s[j] == s.subrange(i + 1, p.1)[j - (i + 1)]);
                }
            },
            None => {},
        }
    }
}

/// Law (round trip, one direction): every encoded envelope decodes, and to
/// the envelope it came from.
pub proof fn lemma_parse_encode(e: EnvelopeView)
    ensures
        parse_envelope(encode_envelope(e)) == Some(e),
{
    reveal_strlit("\"Empty\"");
    reveal_strlit("{\"ActivationMessage\":[\"");
    reveal_strlit(",\"");
    reveal_strlit("\"]}");
    reveal_strlit("]}");
    reveal_strlit("{\"SendMail\":{\"next\":\"");
    reveal_strlit(",\"mail\":\"");
    reveal_strlit("\"}}");
    reveal_strlit("}}");
    match e {
        EnvelopeView::Empty => {},
        EnvelopeView::ActivationMessage { identifier, credential } => {
            let s = encode_envelope(e);
            let e1 = escape(identifier);
            let e2 = escape(credential);
            assert(s == act_open() + e1 + quote_tok() + act_mid() + e2 + act_close());
            let l0 = act_open().len() as int;
            let j1 = l0 + e1.len() + 1;
            let j2 = j1 + 2 + e2.len() + 1;
            assert(s.len() == j2 + 2);
            assert(s != empty_tok());
            assert(tok_at(s, 0, act_open())) by {
                assert(s.subrange(0, l0) =~= act_open());
            }
            assert(s.subrange(l0, l0 + e1.len() + 1) =~= e1 + quote_tok());
            lemma_scan_escape(s, l0, identifier);
            assert(tok_at(s, j1, act_mid())) by {
                assert(s.subrange(j1, j1 + 2) =~= act_mid());
            }
            assert(s.subrange(j1 + 2, j1 + 2 + e2.len() + 1) =~= e2 + quote_tok());
            lemma_scan_escape(s, j1 + 2, credential);
            assert(tok_at(s, j2, "]}"@)) by {
                assert(s.subrange(j2, j2 + 2) =~= "]}"@);
            }
        },
        EnvelopeView::SendMail { next, mail } => {
            let s = encode_envelope(e);
            let e1 = escape(next);
            let e2 = escape(mail);
            assert(s == send_open() + e1 + quote_tok() + send_mid() + e2 + send_close());
            let l0 = send_open().len() as int;
            let j1 = l0 + e1.len() + 1;
            let j2 = j1 + send_mid().len() + e2.len() + 1;
            assert(s.len() == j2 + 2);
            assert(s != empty_tok());
            assert(!tok_at(s, 0, act_open())) by {
                if tok_at(s, 0, act_open()) {
                    assert(s.subrange(0, act_open().len() as int)[2] == s[2]);
                }
            }
            assert(tok_at(s, 0, send_open())) by {
                assert(s.subrange(0, l0) =~= send_open());
            }
            assert(s.subrange(l0, l0 + e1.len() + 1) =~= e1 + quote_tok());
            lemma_scan_escape(s, l0, next);
            assert(tok_at(s, j1, send_mid())) by {
                assert(s.subrange(j1, j1 + send_mid().len()) =~= send_mid());
            }
            assert(s.subrange(j1 + send_mid().len(), j1 + send_mid().len() + e2.len() + 1) =~= e2
                + quote_tok());
            lemma_scan_escape(s, j1 + send_mid().len() as int, mail);
            assert(tok_at(s, j2, "}}"@)) by {
                assert(s.subrange(j2, j2 + 2) =~= "}}"@);
            }
        },
    }
}

/// Law (round trip, other direction): whatever the grammar accepts is the
/// exact wire form of the envelope it yields — decoding never invents or
/// alters content.
#[verifier::rlimit(80)]
#[verifier::spinoff_prover]
pub proof fn lemma_parse_sound(s: Seq<char>)
    ensures
        (match parse_envelope(s) {
            Some(e) => s == encode_envelope(e),
            None => true,
        }),
{
    reveal_strlit("\"Empty\"");
    reveal_strlit("{\"ActivationMessage\":[\"");
    reveal_strlit(",\"");
    reveal_strlit("\"]}");
    reveal_strlit("]}");
    reveal_strlit("{\"SendMail\":{\"next\":\"");
    reveal_strlit(",\"mail\":\"");
    reveal_strlit("\"}}");
    reveal_strlit("}}");
    if s == empty_tok() {
    } else if tok_at(s, 0, act_open()) {
        let l0 = act_open().len() as int;
        lemma_scan_sound(s, l0);
        match scan_string(s, l0) {
            Some(p1) => {
                if tok_at(s, p1.1, act_mid()) {
                    lemma_scan_sound(s, p1.1 + act_mid().len());
                    match scan_string(s, p1.1 + act_mid().len()) {
                        Some(p2) => {
                            if p2.1 + 2 == s.len() && tok_at(s, p2.1, "]}"@) {
                                let ev = EnvelopeView::ActivationMessage {
                                    identifier: p1.0,
                                    credential: p2.0,
                                };
                                assert(s =~= s.subrange(0, l0) + s.subrange(l0, p1.1) + s.subrange(
                                    p1.1,
                                    p1.1 + 2,
                                ) + s.subrange(p1.1 + 2, p2.1) + s.subrange(p2.1, p2.1 + 2));
                                assert(encode_envelope(ev) =~= act_open() + (escape(p1.0)
                                    + quote_tok()) + act_mid() + (escape(p2.0) + quote_tok())
                                    + "]}"@);
                                assert(s == encode_envelope(ev));
                            }
                        },
                        None => {},
                    }
                }
            },
            None => {},
        }
    } else if tok_at(s, 0, send_open()) {
        let l0 = send_open().len() as int;
        lemma_scan_sound(s, l0);
        match scan_string(s, l0) {
            Some(p1) => {
                if tok_at(s, p1.1, send_mid()) {
                    lemma_scan_sound(s, p1.1 + send_mid().len());
                    match scan_string(s, p1.1 + send_mid().len()) {
                        Some(p2) => {
                            if p2.1 + 2 == s.len() && tok_at(s, p2.1, "}}"@) {
                                let ev = EnvelopeView::SendMail { next: p1.0, mail: p2.0 };
                                assert(s =~= s.subrange(0, l0) + s.subrange(l0, p1.1) + s.subrange(
                                    p1.1,
                                    p1.1 + send_mid().len(),
                                ) + s.subrange(p1.1 + send_mid().len(), p2.1) + s.subrange(
                                    p2.1,
                                    p2.1 + 2,
                                ));
                                assert(encode_envelope(ev) =~= send_open() + (escape(p1.0)
                                    + quote_tok()) + send_mid() + (escape(p2.0) + quote_tok())
                                    + "}}"@);
                                assert(s == encode_envelope(ev));
                            }
                        },
                        None => {},
                    }
                }
            },
            None => {},
        }
    }
}

/// Relies on String::push: appends exactly the one character at the end.
#[verifier::external_body]
fn push_char(s: &mut String, c: char)
    ensures
        final(s)@ == old(s)@.push(c),
{
    s.push(c);
}

/// Whether the token stands in `s` at position `i`, checked character by
/// character.
fn starts_with_at(s: &str, i: usize, tok: &str) -> (b: bool)
    ensures
        b == tok_at(s@, i as int, tok@),
{
    let n = s.unicode_len();
    let m = tok.unicode_len();
    if m > n || i > n - m {
        assert(!tok_at(s@, i as int, tok@));
        return false;
    }
    let mut k: usize = 0;
    while k < m
        invariant
            0 <= k <= m,
            i + m <= n,
            n == s@.len(),
            m == tok@.len(),
            forall|j: int| 0 <= j < k ==> s@[i + j] == tok@[j],
        decreases m - k,
    {
        if s.get_char(i + k) != tok.get_char(k) {
            assert(s@.subrange(i as int, i + m) != tok@) by {
                assert(s@.subrange(i as int, i + m)[k as int] == s@[i + k]);
            }
            return false;
        }
        k += 1;
    }
    assert(s@.subrange(i as int, i + m) =~= tok@);
    true
}

/// The character a short escape letter stands for.
fn unescape_short(d: char) -> (c: char)
    requires
        is_short_escape(d),
    ensures
        c == short_unescape(d),
{
    if d == 'n' {
        '\n'
    } else if d == 't' {
        '\t'
    } else if d == 'r' {
        '\r'
    } else if d == 'b' {
        '\u{8}'
    } else if d == 'f' {
        '\u{c}'
    } else {
        d
    }
}

/// The escape letter of a short-escaped character.
fn escape_letter(c: char) -> (d: char)
    requires
        is_short_escaped_char(c),
    ensures
        d == short_escape_of(c),
{
    if c == '\n' {
        'n'
    } else if c == '\t' {
        't'
    } else if c == '\r' {
        'r'
    } else if c == '\u{8}' {
        'b'
    } else if c == '\u{c}' {
        'f'
    } else {
        c
    }
}

/// The lower-case hex digit of a four-bit value.
fn hex_digit_char(n: u8) -> (c: char)
    requires
        n < 16,
    ensures
        c == hex_digit(n as int),
{
    if n == 0 {
        '0'
    } else if n == 1 {
        '1'
    } else if n == 2 {
        '2'
    } else if n == 3 {
        '3'
    } else if n == 4 {
        '4'
    } else if n == 5 {
        '5'
    } else if n == 6 {
        '6'
    } else if n == 7 {
        '7'
    } else if n == 8 {
        '8'
    } else if n == 9 {
        '9'
    } else if n == 10 {
        'a'
    } else if n == 11 {
        'b'
    } else if n == 12 {
        'c'
    } else if n == 13 {
        'd'
    } else if n == 14 {
        'e'
    } else {
        'f'
    }
}

/// The value of a lower-case hex digit, if it is one.
fn hex_char_val(c: char) -> (r: Option<u8>)
    ensures
        (match r {
            Some(v) => hex_val(c) == v as int && v < 16,
            None => hex_val(c) < 0,
        }),
{
    if c == '0' {
        Some(0)
    } else if c == '1' {
        Some(1)
    } else if c == '2' {
        Some(2)
    } else if c == '3' {
        Some(3)
    } else if c == '4' {
        Some(4)
    } else if c == '5' {
        Some(5)
    } else if c == '6' {
        Some(6)
    } else if c == '7' {
        Some(7)
    } else if c == '8' {
        Some(8)
    } else if c == '9' {
        Some(9)
    } else if c == 'a' {
        Some(10)
    } else if c == 'b' {
        Some(11)
    } else if c == 'c' {
        Some(12)
    } else if c == 'd' {
        Some(13)
    } else if c == 'e' {
        Some(14)
    } else if c == 'f' {
        Some(15)
    } else {
        None
    }
}

/// The control character a canonical hex pair spells, if it is canonical.
fn ctrl_pair_value(h: char, l: char) -> (r: Option<u8>)
    ensures
        (match r {
            Some(v) => is_ctrl_escape_pair(h, l) && v as int == 16 * hex_val(h) + hex_val(l),
            None => !is_ctrl_escape_pair(h, l),
        }),
{
    match (hex_char_val(h), hex_char_val(l)) {
        (Some(a), Some(b)) => {
            let v = 16 * a + b;
            if v < 32 && v != 8 && v != 9 && v != 10 && v != 12 && v != 13 {
                Some(v)
            } else {
                None
            }
        },
        _ => None,
    }
}

/// Scans a quoted wire string of `s` from `from` (just past the opening
/// quote), unescaping it, exactly as [`scan_string`] describes.
fn scan_quoted(s: &str, from: usize) -> (r: Result<(String, usize), DecodeError>)
    ensures
        (match r {
            Ok(p) => scan_string(s@, from as int) == Some((p.0@, p.1 as int)) && from < p.1 <= s@.len(),
            Err(_) => scan_string(s@, from as int) is None,
        }),
{
    let n = s.unicode_len();
    if from > n {
        assert(scan_string(s@, from as int) is None);
        return Err(DecodeError::Malformed);
    }
    let mut i: usize = from;
    let mut acc = String::new();
    proof {
        if scan_string(s@, from as int) is Some {
            let t = scan_string(s@, from as int)->Some_0;
            assert(acc@ + t.0 =~= t.0);
        }
    }
    loop
        invariant
            from <= i <= n,
            n == s@.len(),
            scan_string(s@, from as int) == (match scan_string(s@, i as int) {
                Some(t) => Some((acc@ + t.0, t.1)),
                None => None::<(Seq<char>, int)>,
            }),
        decreases n - i,
    {
        if i >= n {
            assert(scan_string(s@, i as int) is None);
            return Err(DecodeError::Malformed);
        }
        let c = s.get_char(i);
        if c == '"' {
            assert(scan_string(s@, i as int) == Some((Seq::<char>::empty(), i + 1 as int)));
            assert(acc@ + Seq::<char>::empty() =~= acc@);
            return Ok((acc, i + 1));
        }
        if c == '\\' {
            if i + 1 >= n {
                assert(scan_string(s@, i as int) is None);
                return Err(DecodeError::Malformed);
            }
            let d = s.get_char(i + 1);
            if d == '"' || d == '\\' || d == 'n' || d == 't' || d == 'r' || d == 'b' || d == 'f' {
                let u = unescape_short(d);
                proof {
                    assert(scan_string(s@, i as int) == (match scan_string(s@, i + 2) {
                        Some(t) => Some((seq![short_unescape(s@[i + 1])] + t.0, t.1)),
                        None => None::<(Seq<char>, int)>,
                    }));
                    if scan_string(s@, i + 2) is Some {
                        let t = scan_string(s@, i + 2)->Some_0;
                        assert(acc@ + (seq![short_unescape(s@[i + 1])] + t.0) =~= acc@.push(u) + t.0);
                    }
                }
                push_char(&mut acc, u);
                i += 2;
            } else if d == 'u' {
                if n - i <= 5 {
                    assert(scan_string(s@, i as int) is None);
                    return Err(DecodeError::Malformed);
                }
                let z1 = s.get_char(i + 2);
                let z2 = s.get_char(i + 3);
                if z1 != '0' || z2 != '0' {
                    assert(scan_string(s@, i as int) is None);
                    return Err(DecodeError::Malformed);
                }
                let h = s.get_char(i + 4);
                let l = s.get_char(i + 5);
                match ctrl_pair_value(h, l) {
                    Some(v) => {
                        let u = v as char;
                        proof {
                            assert(u == ctrl_char(h, l));
                            assert(scan_string(s@, i as int) == (match scan_string(s@, i + 6) {
                                Some(t) => Some((seq![ctrl_char(s@[i + 4], s@[i + 5])] + t.0, t.1)),
                                None => None::<(Seq<char>, int)>,
                            }));
                            if scan_string(s@, i + 6) is Some {
                                let t = scan_string(s@, i + 6)->Some_0;
                                assert(acc@ + (seq![ctrl_char(s@[i + 4], s@[i + 5])] + t.0)
                                    =~= acc@.push(u) + t.0);
                            }
                        }
                        push_char(&mut acc, u);
                        i += 6;
                    },
                    None => {
                        assert(scan_string(s@, i as int) is None);
                        return Err(DecodeError::Malformed);
                    },
                }
            } else {
                assert(scan_string(s@, i as int) is None);
                return Err(DecodeError::Malformed);
            }
        } else if (c as u32) < 32 {
            assert(scan_string(s@, i as int) is None);
            return Err(DecodeError::Malformed);
        } else {
            proof {
                assert(scan_string(s@, i as int) == (match scan_string(s@, i + 1) {
                    Some(t) => Some((seq![s@[i as int]] + t.0, t.1)),
                    None => None::<(Seq<char>, int)>,
                }));
                if scan_string(s@, i + 1) is Some {
                    let t = scan_string(s@, i + 1)->Some_0;
                    assert(acc@ + (seq![s@[i as int]] + t.0) =~= acc@.push(c) + t.0);
                }
            }
            push_char(&mut acc, c);
            i += 1;
        }
    }
}

/// Decodes one wire frame. The result is exactly what the wire grammar
/// [`parse_envelope`] gives: the frame decodes if and only if it is a
/// well-formed envelope, and to the envelope the grammar names.
///
/// The grammar is deliberately canonical: exactly the tag text above, no
/// inter-token whitespace, and only the escapes [`escaped_char`] emits
/// (short escapes, and lower-case `\u00..` for the other control
/// characters). This is the compact form standard emitters produce; a
/// frame in any looser spelling is refused as malformed rather than
/// guessed at.
pub fn decode_envelope(s: &str) -> (r: Result<Envelope, DecodeError>)
    ensures
        (match r {
            Ok(e) => parse_envelope(s@) == Some(e@),
            Err(_) => parse_envelope(s@) is None,
        }),
{
    let n = s.unicode_len();
    let empty_lit = "\"Empty\"";
    proof {
        reveal_strlit("\"Empty\"");
    }
    if starts_with_at(s, 0, empty_lit) && n == empty_lit.unicode_len() {
        assert(s@ =~= empty_tok());
        return Ok(Envelope::Empty);
    }
    assert(s@ != empty_tok()) by {
        if s@ == empty_tok() {
            assert(s@.subrange(0, empty_tok().len() as int) =~= s@);
        }
    }
    let act_open_lit = "{\"ActivationMessage\":[\"";
    let send_open_lit = "{\"SendMail\":{\"next\":\"";
    if starts_with_at(s, 0, act_open_lit) {
        assert(act_open_lit@ == act_open());
        match scan_quoted(s, act_open_lit.unicode_len()) {
            Ok((identifier, j1)) => {
                let mid_lit = ",\"";
                assert(mid_lit@ == act_mid());
                if starts_with_at(s, j1, mid_lit) {
                    match scan_quoted(s, j1 + mid_lit.unicode_len()) {
                        Ok((credential, j2)) => {
                            let close_lit = "]}";
                            assert(close_lit@ == "]}"@);
                            if starts_with_at(s, j2, close_lit) && j2 == n - close_lit.unicode_len() {
                                proof {
                                    reveal_strlit("]}");
                                }
                                Ok(Envelope::ActivationMessage { identifier, credential })
                            } else {
                                proof {
                                    reveal_strlit("]}");
                                }
                                Err(DecodeError::Malformed)
                            }
                        },
                        Err(e) => Err(e),
                    }
                } else {
                    Err(DecodeError::Malformed)
                }
            },
            Err(e) => Err(e),
        }
    } else if starts_with_at(s, 0, send_open_lit) {
        assert(send_open_lit@ == send_open());
        match scan_quoted(s, send_open_lit.unicode_len()) {
            Ok((next, j1)) => {
                let mid_lit = ",\"mail\":\"";
                assert(mid_lit@ == send_mid());
                if starts_with_at(s, j1, mid_lit) {
                    match scan_quoted(s, j1 + mid_lit.unicode_len()) {
                        Ok((mail, j2)) => {
                            let close_lit = "}}";
                            assert(close_lit@ == "}}"@);
                            if starts_with_at(s, j2, close_lit) && j2 == n - close_lit.unicode_len() {
                                proof {
                                    reveal_strlit("}}");
                                }
                                Ok(Envelope::SendMail { next, mail })
                            } else {
                                proof {
                                    reveal_strlit("}}");
                                }
                                Err(DecodeError::Malformed)
                            }
                        },
                        Err(e) => Err(e),
                    }
                } else {
                    Err(DecodeError::Malformed)
                }
            },
            Err(e) => Err(e),
        }
    } else {
        Err(DecodeError::Malformed)
    }
}

/// Escaping distributes over appending one character.
pub proof fn lemma_escape_push(t: Seq<char>, c: char)
    ensures
        escape(t.push(c)) == escape(t) + escaped_char(c),
    decreases t.len(),
{
    let tp = t.push(c);
    if t.len() == 0 {
        assert(tp[0] == c);
        assert(tp.subrange(1, 1) =~= Seq::<char>::empty());
        assert(escape(Seq::<char>::empty()) == Seq::<char>::empty());
        assert(escape(tp) == escaped_char(tp[0]) + escape(tp.subrange(1, 1)));
        assert(escape(tp) =~= escaped_char(c));
        assert(escape(t) + escaped_char(c) =~= escaped_char(c));
    } else {
        assert(tp[0] == t[0]);
        assert(tp.subrange(1, tp.len() as int) =~= t.subrange(1, t.len() as int).push(c));
        lemma_escape_push(t.subrange(1, t.len() as int), c);
        assert(escaped_char(t[0]) + (escape(t.subrange(1, t.len() as int)) + escaped_char(c))
            =~= (escaped_char(t[0]) + escape(t.subrange(1, t.len() as int))) + escaped_char(c));
    }
}

/// Appends the escaped form of `s` to `out`.
fn append_escaped(out: &mut String, s: &str)
    ensures
        final(out)@ == old(out)@ + escape(s@),
{
    let n = s.unicode_len();
    let mut i: usize = 0;
    proof {
        assert(s@.subrange(0, 0) =~= Seq::<char>::empty());
        assert(old(out)@ + escape(s@.subrange(0, 0)) =~= old(out)@);
    }
    while i < n
        invariant
            i <= n,
            n == s@.len(),
            out@ == old(out)@ + escape(s@.subrange(0, i as int)),
        decreases n - i,
    {
        let c = s.get_char(i);
        proof {
            assert(s@.subrange(0, i + 1) =~= s@.subrange(0, i as int).push(c));
            lemma_escape_push(s@.subrange(0, i as int), c);
        }
        if c == '"' || c == '\\' || c == '\n' || c == '\t' || c == '\r' || c == '\u{8}' || c
            == '\u{c}' {
            push_char(out, '\\');
            push_char(out, escape_letter(c));
            assert(out@ =~= old(out)@ + escape(s@.subrange(0, i + 1)));
        } else if (c as u32) < 32 {
            let v = c as u32;
            push_char(out, '\\');
            push_char(out, 'u');
            push_char(out, '0');
            push_char(out, '0');
            push_char(out, hex_digit_char((v / 16) as u8));
            push_char(out, hex_digit_char((v % 16) as u8));
            assert(out@ =~= old(out)@ + escape(s@.subrange(0, i + 1)));
        } else {
            push_char(out, c);
            assert(out@ =~= old(out)@ + escape(s@.subrange(0, i + 1)));
        }
        i += 1;
    }
    proof {
        assert(s@.subrange(0, n as int) =~= s@);
    }
}

/// The structured wire form of one stored mail row: destination first, then
/// payload.
pub open spec fn encode_email(e: crate::types::EmailView) -> Seq<char> {
    "{\"destination\":\""@ + escape(e.destination) + "\",\"payload\":\""@ + escape(e.payload)
        + "\"}"@
}

/// The comma-separated wire forms of a sequence of mail rows.
pub open spec fn mailbox_items(mails: Seq<crate::types::Email>) -> Seq<char>
    decreases mails.len(),
{
    if mails.len() == 0 {
        Seq::empty()
    } else if mails.len() == 1 {
        encode_email(mails[0]@)
    } else {
        mailbox_items(mails.drop_last()) + ","@ + encode_email(mails.last()@)
    }
}

/// The structured wire form of a whole mailbox: the array of its rows in
/// stored order.
pub open spec fn mailbox_json(mails: Seq<crate::types::Email>) -> Seq<char> {
    "["@ + mailbox_items(mails) + "]"@
}

/// Appends the wire form of one mail row to `out`.
fn encode_email_into(out: &mut String, e: &crate::types::Email)
    ensures
        final(out)@ == old(out)@ + encode_email(e@),
{
    out.append("{\"destination\":\"");
    append_escaped(out, e.destination.as_str());
    out.append("\",\"payload\":\"");
    append_escaped(out, e.payload.as_str());
    out.append("\"}");
    assert(out@ =~= old(out)@ + encode_email(e@));
}

/// Encodes a fetched mailbox as one structured frame, each row with its
/// destination and payload, in stored order.
pub fn encode_mailbox(mails: &Vec<crate::types::Email>) -> (r: String)
    ensures
        r@ == mailbox_json(mails@),
{
    let mut out = String::new();
    out.append("[");
    proof {
        assert(mails@.subrange(0, 0) =~= Seq::<crate::types::Email>::empty());
        assert(out@ =~= "["@ + mailbox_items(mails@.subrange(0, 0)));
    }
    let mut i: usize = 0;
    while i < mails.len()
        invariant
            i <= mails@.len(),
            out@ == "["@ + mailbox_items(mails@.subrange(0, i as int)),
        decreases mails@.len() - i,
    {
        if i > 0 {
            out.append(",");
        }
        encode_email_into(&mut out, &mails[i]);
        proof {
            let prefix = mails@.subrange(0, i + 1);
            assert(prefix.drop_last() =~= mails@.subrange(0, i as int));
            assert(prefix.last() == mails@[i as int]);
            assert(out@ =~= "["@ + mailbox_items(prefix));
        }
        i += 1;
    }
    out.append("]");
    proof {
        assert(mails@.subrange(0, mails@.len() as int) =~= mails@);
        assert(out@ =~= mailbox_json(mails@));
    }
    out
}

} // verus!
