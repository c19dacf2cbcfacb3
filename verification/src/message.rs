//! The embedding worker's wire protocol: externally-tagged snake_case JSON
//! envelopes, one per message.  Vector components travel as their decimal
//! lexemes, so the envelope can be emitted and read back verbatim.

use vstd::prelude::*;

use crate::builder::string_views;
use crate::kg_json::parse_string;
use crate::kg_json::quoted;
use crate::text::dec_str;
use crate::text::push_char;
use crate::text::push_u64_dec;

verus! {

/// The mathematical value of a [`Message`].
pub ghost enum MessageView {
    ChunkText(u32, Seq<char>),
    Reset,
    Send(u32, Seq<Seq<char>>),
    ProcessChunk(Seq<char>),
    Stop,
    GetChunkId(Seq<char>, u32),
}

/// One request to the embedding worker.
#[derive(Debug, Clone, PartialEq, Eq)]
pub enum Message {
    /// Encode the text and store it under the chunk id.
    ChunkText(u32, String),
    /// Drain the index, returning every stored vector in insertion order.
    Reset,
    /// Find the top-k stored entries closest to the carried query vector.
    Send(u32, Vec<String>),
    /// Encode the text and return the vector without storing it.
    ProcessChunk(String),
    /// Leave the worker loop.
    Stop,
    /// Encode the text and return the ids of the top-k closest entries.
    GetChunkId(String, u32),
}

impl View for Message {
    type V = MessageView;

    open spec fn view(&self) -> MessageView {
        match self {
            Message::ChunkText(id, text) => MessageView::ChunkText(*id, text@),
            Message::Reset => MessageView::Reset,
            Message::Send(k, v) => MessageView::Send(*k, string_views(v@)),
            Message::ProcessChunk(text) => MessageView::ProcessChunk(text@),
            Message::Stop => MessageView::Stop,
            Message::GetChunkId(text, k) => MessageView::GetChunkId(text@, *k),
        }
    }
}

/// The comma-separated raw lexemes from position `i` on.
pub open spec fn lexemes_from(ss: Seq<Seq<char>>, i: int) -> Seq<char>
    decreases ss.len() - i,
{
    if i < 0 || i >= ss.len() {
        Seq::empty()
    } else if i == 0 {
        ss[0] + lexemes_from(ss, 1)
    } else {
        seq![','] + ss[i] + lexemes_from(ss, i + 1)
    }
}

/// The canonical envelope of a message.
pub open spec fn message_json(m: MessageView) -> Seq<char> {
    match m {
        MessageView::ChunkText(id, text) => seq!['{'] + quoted("chunk_text"@) + seq![':', '[']
            + dec_str(id as nat) + seq![','] + quoted(text) + seq![']', '}'],
        MessageView::Reset => quoted("reset"@),
        MessageView::Send(k, v) => seq!['{'] + quoted("send"@) + seq![':', '['] + dec_str(k as nat)
            + seq![',', '['] + lexemes_from(v, 0) + seq![']', ']', '}'],
        MessageView::ProcessChunk(text) => seq!['{'] + quoted("process_chunk"@) + seq![':']
            + quoted(text) + seq!['}'],
        MessageView::Stop => quoted("stop"@),
        MessageView::GetChunkId(text, k) => seq!['{'] + quoted("get_chunk_id"@) + seq![':', '[']
            + quoted(text) + seq![','] + dec_str(k as nat) + seq![']', '}'],
    }
}

impl Message {
    /// Serializes the message as its canonical envelope.
    pub fn to_json_string(&self) -> (r: String)
        ensures
            r@ == message_json(self@),
    {
        let mut out = String::new();
        match self {
            Message::ChunkText(id, text) => {
                push_char(&mut out, '{');
                crate::kg_json::push_quoted(&mut out, "chunk_text");
                push_char(&mut out, ':');
                push_char(&mut out, '[');
                push_u64_dec(&mut out, *id as u64);
                push_char(&mut out, ',');
                crate::kg_json::push_quoted(&mut out, text.as_str());
                push_char(&mut out, ']');
                push_char(&mut out, '}');
                proof {
                    assert(out@ =~= message_json(self@));
                }
            },
            Message::Reset => {
                crate::kg_json::push_quoted(&mut out, "reset");
                proof {
                    assert(out@ =~= message_json(self@));
                }
            },
            Message::Send(k, v) => {
                push_char(&mut out, '{');
                crate::kg_json::push_quoted(&mut out, "send");
                push_char(&mut out, ':');
                push_char(&mut out, '[');
                push_u64_dec(&mut out, *k as u64);
                push_char(&mut out, ',');
                push_char(&mut out, '[');
                let ghost pre = out@;
                let ghost ss = string_views(v@);
                let mut i: usize = 0;
                while i < v.len()
                    invariant
                        0 <= i <= v.len(),
                        ss == string_views(v@),
                        i == 0 ==> out@ =~= pre,
                        i > 0 ==> out@ + lexemes_from(ss, i as int) =~= pre + lexemes_from(ss, 0),
                    decreases v.len() - i,
                {
                    let ghost o0 = out@;
                    proof {
                        assert(ss[i as int] == v@[i as int]@);
                    }
                    if i > 0 {
                        push_char(&mut out, ',');
                    }
                    out.append(v[i].as_str());
                    proof {
                        if i == 0 {
                            assert(out@ =~= o0 + ss[0]);
                            assert(lexemes_from(ss, 0) == ss[0] + lexemes_from(ss, 1));
                        } else {
                            assert(out@ =~= o0 + (seq![','] + ss[i as int]));
                            assert(lexemes_from(ss, i as int) == seq![','] + ss[i as int]
                                + lexemes_from(ss, i + 1));
                        }
                        assert(out@ + lexemes_from(ss, i + 1 as int) =~= pre + lexemes_from(
                            ss,
                            0,
                        ));
                    }
                    i += 1;
                }
                proof {
                    if ss.len() == 0 {
                        assert(lexemes_from(ss, 0) =~= Seq::<char>::empty());
                    } else {
                        assert(lexemes_from(ss, ss.len() as int) =~= Seq::<char>::empty());
                    }
                    assert(out@ =~= pre + lexemes_from(ss, 0));
                }
                push_char(&mut out, ']');
                push_char(&mut out, ']');
                push_char(&mut out, '}');
                proof {
                    assert(out@ =~= message_json(self@));
                }
            },
            Message::ProcessChunk(text) => {
                push_char(&mut out, '{');
                crate::kg_json::push_quoted(&mut out, "process_chunk");
                push_char(&mut out, ':');
                crate::kg_json::push_quoted(&mut out, text.as_str());
                push_char(&mut out, '}');
                proof {
                    assert(out@ =~= message_json(self@));
                }
            },
            Message::Stop => {
                crate::kg_json::push_quoted(&mut out, "stop");
                proof {
                    assert(out@ =~= message_json(self@));
                }
            },
            Message::GetChunkId(text, k) => {
                push_char(&mut out, '{');
                crate::kg_json::push_quoted(&mut out, "get_chunk_id");
                push_char(&mut out, ':');
                push_char(&mut out, '[');
                crate::kg_json::push_quoted(&mut out, text.as_str());
                push_char(&mut out, ',');
                push_u64_dec(&mut out, *k as u64);
                push_char(&mut out, ']');
                push_char(&mut out, '}');
                proof {
                    assert(out@ =~= message_json(self@));
                }
            },
        }
        out
    }
}

} // verus!


verus! {

/// A decimal digit.
pub open spec fn is_digit(c: char) -> bool {
    '0' <= c <= '9'
}

/// The value of one digit.
pub open spec fn digit_val(c: char) -> nat {
    if c == '0' {
        0
    } else if c == '1' {
        1
    } else if c == '2' {
        2
    } else if c == '3' {
        3
    } else if c == '4' {
        4
    } else if c == '5' {
        5
    } else if c == '6' {
        6
    } else if c == '7' {
        7
    } else if c == '8' {
        8
    } else {
        9
    }
}

/// The value of a digit string.
pub open spec fn digits_val(ds: Seq<char>) -> nat
    decreases ds.len(),
{
    if ds.len() == 0 {
        0
    } else {
        digits_val(ds.drop_last()) * 10 + digit_val(ds.last())
    }
}

/// Powers of ten.
pub open spec fn pow10(n: nat) -> nat
    decreases n,
{
    if n == 0 {
        1
    } else {
        10 * pow10((n - 1) as nat)
    }
}

/// A digit string's value is below ten to its length.
proof fn lemma_digits_val_bound(ds: Seq<char>)
    ensures
        digits_val(ds) < pow10(ds.len()),
    decreases ds.len(),
{
    if ds.len() > 0 {
        lemma_digits_val_bound(ds.drop_last());
    }
}

/// The first ten powers of ten, spelled out for the overflow bounds.
proof fn lemma_pow10_ten()
    ensures
        pow10(9) == 1000000000,
        pow10(10) == 10000000000,
{
    assert(pow10(0) == 1);
    assert(pow10(1) == 10);
    assert(pow10(2) == 100);
    assert(pow10(3) == 1000);
    assert(pow10(4) == 10000);
    assert(pow10(5) == 100000);
    assert(pow10(6) == 1000000);
    assert(pow10(7) == 10000000);
    assert(pow10(8) == 100000000);
    assert(pow10(9) == 1000000000);
    assert(pow10(10) == 10000000000);
}

/// Splits `s` into its longest digit prefix and the remainder.
pub open spec fn scan_digits(s: Seq<char>) -> (Seq<char>, Seq<char>)
    decreases s.len(),
{
    if s.len() > 0 && is_digit(s[0]) {
        let (d, rest) = scan_digits(s.skip(1));
        (seq![s[0]] + d, rest)
    } else {
        (Seq::empty(), s)
    }
}

/// Parses an unsigned number of at most ten digits that fits in a `u32`.
pub open spec fn parse_u32(s: Seq<char>) -> Option<(u32, Seq<char>)> {
    let (ds, rest) = scan_digits(s);
    if ds.len() == 0 || ds.len() > 10 || digits_val(ds) > u32::MAX {
        None
    } else {
        Some((digits_val(ds) as u32, rest))
    }
}

/// Whether `c` is a decimal digit.
fn is_digit_exec(c: char) -> (r: bool)
    ensures
        r == is_digit(c),
{
    '0' <= c && c <= '9'
}

/// The value of one digit character.
fn digit_val_exec(c: char) -> (r: u64)
    ensures
        r == digit_val(c),
{
    if c == '0' {
        0
    } else if c == '1' {
        1
    } else if c == '2' {
        2
    } else if c == '3' {
        3
    } else if c == '4' {
        4
    } else if c == '5' {
        5
    } else if c == '6' {
        6
    } else if c == '7' {
        7
    } else if c == '8' {
        8
    } else {
        9
    }
}

/// Parses a number starting exactly at `i`.
fn parse_u32_exec(v: &Vec<char>, i: usize) -> (r: Option<(u32, usize)>)
    requires
        i <= v@.len(),
    ensures
        match r {
            Some(p) => {
                &&& i < p.1 <= v@.len()
                &&& parse_u32(v@.skip(i as int)) == Some((p.0, v@.skip(p.1 as int)))
            },
            None => parse_u32(v@.skip(i as int)) is None,
        },
{
    let ghost full = scan_digits(v@.skip(i as int));
    let mut cur = i;
    let mut acc: u64 = 0;
    let mut count: usize = 0;
    loop
        invariant
            i <= cur <= v@.len(),
            count == cur - i,
            count <= 10,
            full == scan_digits(v@.skip(i as int)),
            full.0 =~= v@.subrange(i as int, cur as int) + scan_digits(v@.skip(cur as int)).0,
            full.1 == scan_digits(v@.skip(cur as int)).1,
            acc == digits_val(v@.subrange(i as int, cur as int)),
        decreases v@.len() - cur,
    {
        if cur >= v.len() || !is_digit_exec(v[cur]) {
            proof {
                if cur < v@.len() {
                    assert(v@.skip(cur as int)[0] == v@[cur as int]);
                }
                assert(scan_digits(v@.skip(cur as int)).0 =~= Seq::<char>::empty());
                assert(full.0 =~= v@.subrange(i as int, cur as int));
            }
            if count == 0 {
                return None;
            }
            if acc > 0xFFFF_FFFF {
                return None;
            }
            return Some((acc as u32, cur));
        }
        let c = v[cur];
        proof {
            assert(v@.skip(cur as int)[0] == c);
            assert(v@.skip(cur as int).skip(1) =~= v@.skip(cur + 1 as int));
        }
        if count == 10 {
            proof {
                assert(scan_digits(v@.skip(cur as int)).0.len() >= 1);
                assert(full.0.len() >= 11);
            }
            return None;
        }
        proof {
            lemma_digits_val_bound(v@.subrange(i as int, cur as int));
            lemma_pow10_ten();
            if count < 9 {
                assert(pow10((cur - i) as nat) <= pow10(9)) by {
                    assert forall|a: nat, b: nat| a <= b implies pow10(a) <= pow10(b) by {
                        lemma_pow10_monotone(a, b);
                    }
                }
            } else {
                assert(pow10((cur - i) as nat) == pow10(9));
            }
            assert(acc < 1000000000);
        }
        let d = digit_val_exec(c);
        let ghost pfx = v@.subrange(i as int, cur as int);
        acc = acc * 10 + d;
        proof {
            assert(v@.subrange(i as int, cur + 1 as int).drop_last() =~= pfx);
            assert(v@.subrange(i as int, cur + 1 as int).last() == c);
        }
        count += 1;
        cur += 1;
    }
}

/// Powers of ten are monotone in the exponent.
proof fn lemma_pow10_monotone(a: nat, b: nat)
    requires
        a <= b,
    ensures
        pow10(a) <= pow10(b),
    decreases b,
{
    if a < b {
        lemma_pow10_monotone(a, (b - 1) as nat);
        assert(pow10(b) == 10 * pow10((b - 1) as nat));
    }
}

} // verus!

verus! {

/// A character of a number lexeme.
pub open spec fn is_num_char(c: char) -> bool {
    is_digit(c) || c == '.' || c == '-' || c == '+' || c == 'e' || c == 'E'
}

/// Splits `s` into its longest number-lexeme prefix and the remainder.
pub open spec fn scan_lexeme(s: Seq<char>) -> (Seq<char>, Seq<char>)
    decreases s.len(),
{
    if s.len() > 0 && is_num_char(s[0]) {
        let (d, rest) = scan_lexeme(s.skip(1));
        (seq![s[0]] + d, rest)
    } else {
        (Seq::empty(), s)
    }
}

/// A lexeme and its remainder partition the input.
proof fn lemma_scan_lexeme_len(s: Seq<char>)
    ensures
        scan_lexeme(s).0.len() + scan_lexeme(s).1.len() == s.len(),
    decreases s.len(),
{
    if s.len() > 0 && is_num_char(s[0]) {
        lemma_scan_lexeme_len(s.skip(1));
    }
}

/// Parses the remainder of a non-empty lexeme list: the closing bracket or
/// a comma and one more lexeme, repeatedly.
pub open spec fn parse_lexemes_rest(s: Seq<char>, acc: Seq<Seq<char>>) -> Option<
    (Seq<Seq<char>>, Seq<char>),
>
    decreases s.len(),
    via parse_lexemes_rest_decreases
{
    if s.len() == 0 {
        None
    } else if s[0] == ']' {
        Some((acc, s.skip(1)))
    } else if s[0] == ',' {
        let (lx, r) = scan_lexeme(s.skip(1));
        if lx.len() == 0 {
            None
        } else {
            parse_lexemes_rest(r, acc.push(lx))
        }
    } else {
        None
    }
}

#[via_fn]
proof fn parse_lexemes_rest_decreases(s: Seq<char>, acc: Seq<Seq<char>>) {
    if s.len() > 0 && s[0] != ']' && s[0] == ',' {
        lemma_scan_lexeme_len(s.skip(1));
    }
}

/// Parses a lexeme list after its opening bracket.
pub open spec fn parse_lexeme_list(s: Seq<char>) -> Option<(Seq<Seq<char>>, Seq<char>)> {
    if s.len() == 0 {
        None
    } else if s[0] == ']' {
        Some((Seq::empty(), s.skip(1)))
    } else {
        let (lx, r) = scan_lexeme(s);
        if lx.len() == 0 {
            None
        } else {
            parse_lexemes_rest(r, seq![lx])
        }
    }
}

/// The body of a `chunk_text` envelope after its key.
pub open spec fn parse_chunk_text_body(s: Seq<char>) -> Option<MessageView> {
    if s.len() == 0 || s[0] != '[' {
        None
    } else {
        match parse_u32(s.skip(1)) {
            None => None,
            Some((id, r1)) => if r1.len() == 0 || r1[0] != ',' {
                None
            } else {
                match parse_string(r1.skip(1)) {
                    None => None,
                    Some((text, r2)) => if r2 =~= seq![']', '}'] {
                        Some(MessageView::ChunkText(id, text))
                    } else {
                        None
                    },
                }
            },
        }
    }
}

/// The body of a `process_chunk` envelope after its key.
pub open spec fn parse_process_chunk_body(s: Seq<char>) -> Option<MessageView> {
    match parse_string(s) {
        None => None,
        Some((text, r)) => if r =~= seq!['}'] {
            Some(MessageView::ProcessChunk(text))
        } else {
            None
        },
    }
}

/// The body of a `get_chunk_id` envelope after its key.
pub open spec fn parse_get_chunk_id_body(s: Seq<char>) -> Option<MessageView> {
    if s.len() == 0 || s[0] != '[' {
        None
    } else {
        match parse_string(s.skip(1)) {
            None => None,
            Some((text, r1)) => if r1.len() == 0 || r1[0] != ',' {
                None
            } else {
                match parse_u32(r1.skip(1)) {
                    None => None,
                    Some((k, r2)) => if r2 =~= seq![']', '}'] {
                        Some(MessageView::GetChunkId(text, k))
                    } else {
                        None
                    },
                }
            },
        }
    }
}

/// The body of a `send` envelope after its key.
pub open spec fn parse_send_body(s: Seq<char>) -> Option<MessageView> {
    if s.len() == 0 || s[0] != '[' {
        None
    } else {
        match parse_u32(s.skip(1)) {
            None => None,
            Some((k, r1)) => if r1.len() < 2 || r1[0] != ',' || r1[1] != '[' {
                None
            } else {
                match parse_lexeme_list(r1.skip(2)) {
                    None => None,
                    Some((v, r2)) => if r2 =~= seq![']', '}'] {
                        Some(MessageView::Send(k, v))
                    } else {
                        None
                    },
                }
            },
        }
    }
}

/// The grammar of a worker message: a bare `"reset"` or `"stop"` word, or a
/// single-key envelope selecting the operation.
pub open spec fn message_parse(s: Seq<char>) -> Option<MessageView> {
    if s.len() == 0 {
        None
    } else if s[0] == '"' {
        match parse_string(s) {
            None => None,
            Some((w, rest)) => if rest.len() != 0 {
                None
            } else if w == "reset"@ {
                Some(MessageView::Reset)
            } else if w == "stop"@ {
                Some(MessageView::Stop)
            } else {
                None
            },
        }
    } else if s[0] == '{' {
        match parse_string(s.skip(1)) {
            None => None,
            Some((key, r1)) => if r1.len() == 0 || r1[0] != ':' {
                None
            } else {
                let body = r1.skip(1);
                if key == "chunk_text"@ {
                    parse_chunk_text_body(body)
                } else if key == "send"@ {
                    parse_send_body(body)
                } else if key == "process_chunk"@ {
                    parse_process_chunk_body(body)
                } else if key == "get_chunk_id"@ {
                    parse_get_chunk_id_body(body)
                } else {
                    None
                }
            },
        }
    } else {
        None
    }
}

} // verus!

verus! {

/// Whether `c` may appear in a number lexeme.
fn is_num_char_exec(c: char) -> (r: bool)
    ensures
        r == is_num_char(c),
{
    ('0' <= c && c <= '9') || c == '.' || c == '-' || c == '+' || c == 'e' || c == 'E'
}

/// Scans the number lexeme starting exactly at `i`.
fn scan_lexeme_exec(v: &Vec<char>, i: usize) -> (r: (String, usize))
    requires
        i <= v@.len(),
    ensures
        i <= r.1 <= v@.len(),
        scan_lexeme(v@.skip(i as int)).0 == r.0@,
        scan_lexeme(v@.skip(i as int)).1 == v@.skip(r.1 as int),
        r.0@.len() == r.1 - i,
{
    let mut content: Vec<char> = Vec::new();
    let mut cur = i;
    loop
        invariant
            i <= cur <= v@.len(),
            content@ =~= v@.subrange(i as int, cur as int),
            scan_lexeme(v@.skip(i as int)).0 =~= v@.subrange(i as int, cur as int) + scan_lexeme(
                v@.skip(cur as int),
            ).0,
            scan_lexeme(v@.skip(i as int)).1 == scan_lexeme(v@.skip(cur as int)).1,
        decreases v@.len() - cur,
    {
        if cur >= v.len() || !is_num_char_exec(v[cur]) {
            proof {
                if cur < v@.len() {
                    assert(v@.skip(cur as int)[0] == v@[cur as int]);
                }
                assert(scan_lexeme(v@.skip(cur as int)).0 =~= Seq::<char>::empty());
                assert(scan_lexeme(v@.skip(i as int)).0 =~= v@.subrange(i as int, cur as int));
            }
            let s = crate::text::chars_to_string(&content);
            return (s, cur);
        }
        proof {
            assert(v@.skip(cur as int)[0] == v@[cur as int]);
            assert(v@.skip(cur as int).skip(1) =~= v@.skip(cur + 1 as int));
            assert(v@.subrange(i as int, cur + 1 as int) =~= v@.subrange(i as int, cur as int).push(
                v@[cur as int],
            ));
        }
        content.push(v[cur]);
        cur += 1;
    }
}

/// Parses a lexeme list after its opening bracket, starting at `i`.
fn parse_lexemes_exec(v: &Vec<char>, i: usize) -> (r: Option<(Vec<String>, usize)>)
    requires
        i <= v@.len(),
    ensures
        match r {
            Some(p) => {
                &&& p.1 <= v@.len()
                &&& parse_lexeme_list(v@.skip(i as int)) == Some(
                    (string_views(p.0@), v@.skip(p.1 as int)),
                )
            },
            None => parse_lexeme_list(v@.skip(i as int)) is None,
        },
{
    if i >= v.len() {
        return None;
    }
    proof {
        assert(v@.skip(i as int)[0] == v@[i as int]);
    }
    if v[i] == ']' {
        let out: Vec<String> = Vec::new();
        proof {
            assert(v@.skip(i as int).skip(1) =~= v@.skip(i + 1 as int));
            assert(string_views(out@) =~= Seq::<Seq<char>>::empty());
        }
        return Some((out, i + 1));
    }
    let first = scan_lexeme_exec(v, i);
    if first.1 == i {
        proof {
            assert(scan_lexeme(v@.skip(i as int)).0.len() == 0);
        }
        return None;
    }
    let mut acc: Vec<String> = Vec::new();
    let ghost f0 = first.0@;
    acc.push(first.0);
    let mut cur: usize = first.1;
    proof {
        assert(string_views(acc@) =~= seq![f0]);
        assert(parse_lexeme_list(v@.skip(i as int)) == parse_lexemes_rest(
            v@.skip(cur as int),
            string_views(acc@),
        ));
    }
    loop
        invariant
            cur <= v@.len(),
            parse_lexeme_list(v@.skip(i as int)) == parse_lexemes_rest(
                v@.skip(cur as int),
                string_views(acc@),
            ),
        decreases v@.len() - cur,
    {
        if cur >= v.len() {
            proof {
                assert(v@.skip(cur as int) =~= Seq::<char>::empty());
            }
            return None;
        }
        proof {
            assert(v@.skip(cur as int)[0] == v@[cur as int]);
        }
        if v[cur] == ']' {
            proof {
                assert(v@.skip(cur as int).skip(1) =~= v@.skip(cur + 1 as int));
            }
            return Some((acc, cur + 1));
        }
        if v[cur] != ',' {
            return None;
        }
        proof {
            assert(v@.skip(cur as int).skip(1) =~= v@.skip(cur + 1 as int));
        }
        let nxt = scan_lexeme_exec(v, cur + 1);
        if nxt.1 == cur + 1 {
            proof {
                assert(scan_lexeme(v@.skip(cur + 1 as int)).0.len() == 0);
            }
            return None;
        }
        let ghost a0 = string_views(acc@);
        let ghost nl = nxt.0@;
        acc.push(nxt.0);
        proof {
            assert(string_views(acc@) =~= a0.push(nl));
        }
        cur = nxt.1;
    }
}

impl Message {
    /// Parses a worker message from its envelope.  Succeeds exactly when
    /// the text matches the protocol grammar.
    #[verifier::rlimit(60)]
    pub fn parse(text: &str) -> (r: Option<Message>)
        ensures
            match r {
                Some(m) => message_parse(text@) == Some(m@),
                None => message_parse(text@) is None,
            },
    {
        let v = crate::text::str_to_chars(text);
        if v.len() == 0 {
            return None;
        }
        if v[0] == '"' {
            proof {
                assert(v@.skip(0) =~= v@);
            }
            let w = match crate::kg_json::parse_string_exec(&v, 0) {
                Some(p) => p,
                None => {
                    return None;
                },
            };
            if w.1 < v.len() {
                proof {
                    assert(v@.skip(w.1 as int).len() != 0);
                }
                return None;
            }
            proof {
                assert(v@.skip(w.1 as int).len() == 0);
            }
            if crate::kg_json::key_is(&w.0, "reset") {
                return Some(Message::Reset);
            }
            if crate::kg_json::key_is(&w.0, "stop") {
                return Some(Message::Stop);
            }
            return None;
        }
        if v[0] != '{' {
            return None;
        }
        proof {
            assert(v@.skip(0) =~= v@);
            assert(v@.skip(0int).skip(1) =~= v@.skip(1int));
        }
        let key = match crate::kg_json::parse_string_exec(&v, 1) {
            Some(p) => p,
            None => {
                return None;
            },
        };
        if key.1 >= v.len() {
            proof {
                assert(v@.skip(key.1 as int).len() == 0);
            }
            return None;
        }
        proof {
            assert(v@.skip(key.1 as int)[0] == v@[key.1 as int]);
        }
        if v[key.1] != ':' {
            return None;
        }
        let b = key.1 + 1;
        proof {
            assert(v@.skip(key.1 as int).skip(1) =~= v@.skip(b as int));
        }
        if crate::kg_json::key_is(&key.0, "chunk_text") {
            return Self::parse_chunk_text(&v, b);
        }
        if crate::kg_json::key_is(&key.0, "send") {
            return Self::parse_send(&v, b);
        }
        if crate::kg_json::key_is(&key.0, "process_chunk") {
            return Self::parse_process_chunk(&v, b);
        }
        if crate::kg_json::key_is(&key.0, "get_chunk_id") {
            return Self::parse_get_chunk_id(&v, b);
        }
        None
    }

    /// Parses a `chunk_text` body.
    fn parse_chunk_text(v: &Vec<char>, b: usize) -> (r: Option<Message>)
        requires
            b <= v@.len(),
        ensures
            match r {
                Some(m) => parse_chunk_text_body(v@.skip(b as int)) == Some(m@),
                None => parse_chunk_text_body(v@.skip(b as int)) is None,
            },
    {
        if b >= v.len() {
            return None;
        }
        proof {
            assert(v@.skip(b as int)[0] == v@[b as int]);
        }
        if v[b] != '[' {
            return None;
        }
        proof {
            assert(v@.skip(b as int).skip(1) =~= v@.skip(b + 1 as int));
        }
        let id = match parse_u32_exec(v, b + 1) {
            Some(p) => p,
            None => {
                return None;
            },
        };
        if id.1 >= v.len() {
            proof {
                assert(v@.skip(id.1 as int).len() == 0);
            }
            return None;
        }
        proof {
            assert(v@.skip(id.1 as int)[0] == v@[id.1 as int]);
        }
        if v[id.1] != ',' {
            return None;
        }
        proof {
            assert(v@.skip(id.1 as int).skip(1) =~= v@.skip(id.1 + 1 as int));
        }
        let text = match crate::kg_json::parse_string_exec(v, id.1 + 1) {
            Some(p) => p,
            None => {
                return None;
            },
        };
        if Self::ends_with_bracket_brace(v, text.1) {
            Some(Message::ChunkText(id.0, text.0))
        } else {
            None
        }
    }

    /// Parses a `process_chunk` body.
    fn parse_process_chunk(v: &Vec<char>, b: usize) -> (r: Option<Message>)
        requires
            b <= v@.len(),
        ensures
            match r {
                Some(m) => parse_process_chunk_body(v@.skip(b as int)) == Some(m@),
                None => parse_process_chunk_body(v@.skip(b as int)) is None,
            },
    {
        let text = match crate::kg_json::parse_string_exec(v, b) {
            Some(p) => p,
            None => {
                return None;
            },
        };
        let n = v.len();
        if n >= 1 && text.1 == n - 1 && v[text.1] == '}' {
            proof {
                assert(v@.skip(text.1 as int) =~= seq!['}']);
            }
            Some(Message::ProcessChunk(text.0))
        } else {
            proof {
                if v@.skip(text.1 as int).len() == 1 {
                    assert(v@.skip(text.1 as int)[0] == v@[text.1 as int]);
                }
                assert(!(v@.skip(text.1 as int) =~= seq!['}']));
            }
            None
        }
    }

    /// Parses a `get_chunk_id` body.
    fn parse_get_chunk_id(v: &Vec<char>, b: usize) -> (r: Option<Message>)
        requires
            b <= v@.len(),
        ensures
            match r {
                Some(m) => parse_get_chunk_id_body(v@.skip(b as int)) == Some(m@),
                None => parse_get_chunk_id_body(v@.skip(b as int)) is None,
            },
    {
        if b >= v.len() {
            return None;
        }
        proof {
            assert(v@.skip(b as int)[0] == v@[b as int]);
        }
        if v[b] != '[' {
            return None;
        }
        proof {
            assert(v@.skip(b as int).skip(1) =~= v@.skip(b + 1 as int));
        }
        let text = match crate::kg_json::parse_string_exec(v, b + 1) {
            Some(p) => p,
            None => {
                return None;
            },
        };
        if text.1 >= v.len() {
            proof {
                assert(v@.skip(text.1 as int).len() == 0);
            }
            return None;
        }
        proof {
            assert(v@.skip(text.1 as int)[0] == v@[text.1 as int]);
        }
        if v[text.1] != ',' {
            return None;
        }
        proof {
            assert(v@.skip(text.1 as int).skip(1) =~= v@.skip(text.1 + 1 as int));
        }
        let k = match parse_u32_exec(v, text.1 + 1) {
            Some(p) => p,
            None => {
                return None;
            },
        };
        if Self::ends_with_bracket_brace(v, k.1) {
            Some(Message::GetChunkId(text.0, k.0))
        } else {
            None
        }
    }

    /// Parses a `send` body.
    fn parse_send(v: &Vec<char>, b: usize) -> (r: Option<Message>)
        requires
            b <= v@.len(),
        ensures
            match r {
                Some(m) => parse_send_body(v@.skip(b as int)) == Some(m@),
                None => parse_send_body(v@.skip(b as int)) is None,
            },
    {
        if b >= v.len() {
            return None;
        }
        proof {
            assert(v@.skip(b as int)[0] == v@[b as int]);
        }
        if v[b] != '[' {
            return None;
        }
        proof {
            assert(v@.skip(b as int).skip(1) =~= v@.skip(b + 1 as int));
        }
        let k = match parse_u32_exec(v, b + 1) {
            Some(p) => p,
            None => {
                return None;
            },
        };
        let r1 = k.1;
        let n = v.len();
        if n - r1 < 2 {
            proof {
                assert(v@.skip(r1 as int).len() < 2);
            }
            return None;
        }
        proof {
            assert(v@.skip(r1 as int)[0] == v@[r1 as int]);
            assert(v@.skip(r1 as int)[1] == v@[r1 + 1 as int]);
        }
        if v[r1] != ',' || v[r1 + 1] != '[' {
            return None;
        }
        proof {
            assert(v@.skip(r1 as int).skip(2) =~= v@.skip(r1 + 2 as int));
        }
        let lx = match parse_lexemes_exec(v, r1 + 2) {
            Some(p) => p,
            None => {
                return None;
            },
        };
        if Self::ends_with_bracket_brace(v, lx.1) {
            Some(Message::Send(k.0, lx.0))
        } else {
            None
        }
    }

    /// Whether the input ends in exactly `]}` from position `j` on.
    fn ends_with_bracket_brace(v: &Vec<char>, j: usize) -> (r: bool)
        requires
            j <= v@.len(),
        ensures
            r == (v@.skip(j as int) =~= seq![']', '}']),
    {
        let n = v.len();
        if n >= 2 && j == n - 2 && v[j] == ']' && v[j + 1] == '}' {
            proof {
                assert(v@.skip(j as int) =~= seq![']', '}']);
            }
            true
        } else {
            proof {
                if v@.skip(j as int).len() == 2 {
                    assert(v@.skip(j as int)[0] == v@[j as int]);
                    assert(v@.skip(j as int)[1] == v@[j + 1 as int]);
                }
                assert(!(v@.skip(j as int) =~= seq![']', '}']));
            }
            false
        }
    }
}

} // verus!

verus! {

/// The error reported when a query vector does not have the model
/// dimension.
#[derive(Debug, Clone, PartialEq, Eq)]
pub struct DimensionMismatch;

/// Accepts a query vector exactly when it has the model dimension.
pub fn check_query_dimension(v: &Vec<String>) -> (r: Result<(), DimensionMismatch>)
    ensures
        r is Ok <==> v@.len() == crate::EMBEDDING_DIM,
{
    if v.len() == crate::EMBEDDING_DIM {
        Ok(())
    } else {
        Err(DimensionMismatch)
    }
}

} // verus!
