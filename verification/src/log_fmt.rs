use crate::text::{decimal, str_byte_len, usize_to_decimal};
use vstd::prelude::*;
use vstd::string::StringSliceAdditionalSpecFns;
use vstd::utf8::*;

verus! {

broadcast use vstd::utf8::group_utf8_lib;

/// The UTF-8 encoding of a concatenation is the concatenation of the encodings.
pub proof fn lemma_encode_concat(a: Seq<char>, b: Seq<char>)
    ensures
        encode_utf8(a + b) == encode_utf8(a) + encode_utf8(b),
    decreases a.len(),
{
    if a.len() == 0 {
        assert(a + b =~= b);
        assert(encode_utf8(a) =~= Seq::<u8>::empty());
        assert(encode_utf8(a) + encode_utf8(b) =~= encode_utf8(b));
    } else {
        assert((a + b).drop_first() =~= a.drop_first() + b);
        assert((a + b)[0] == a[0]);
        lemma_encode_concat(a.drop_first(), b);
        assert(encode_utf8(a + b) =~= encode_scalar(a[0] as u32) + encode_utf8(a.drop_first() + b));
        assert(encode_scalar(a[0] as u32) + (encode_utf8(a.drop_first()) + encode_utf8(b))
            =~= (encode_scalar(a[0] as u32) + encode_utf8(a.drop_first())) + encode_utf8(b));
    }
}

/// The encoded form of a chunk's own prefix: `<base>#<k>] `.
pub open spec fn chunk_prefix(base: Seq<char>, k: nat) -> Seq<char> {
    base + seq!['#'] + decimal(k) + seq![']', ' ']
}

/// The lines, as UTF-8 bytes, that the message bytes `msg` from byte `start` on are cut
/// into when each line is at most `width` bytes and starts with its chunk prefix
/// (numbered from `k`); `None` where cutting fails: a prefix leaves no room for any of
/// the message, or a cut falls inside a character.
pub open spec fn chunks_from(msg: Seq<u8>, base: Seq<char>, width: nat, start: nat, k: nat) -> Option<
    Seq<Seq<u8>>,
>
    decreases msg.len() - start,
{
    if start >= msg.len() {
        Some(seq![])
    } else {
        let p = encode_utf8(chunk_prefix(base, k));
        if p.len() >= width {
            None
        } else {
            let size = (width - p.len()) as nat;
            let end = if start + size <= msg.len() {
                start + size
            } else {
                msg.len() as nat
            };
            if !is_char_boundary(msg, start as int) || !is_char_boundary(msg, end as int) {
                None
            } else {
                match chunks_from(msg, base, width, end, k + 1) {
                    Some(rest) => Some(seq![p + msg.subrange(start as int, end as int)] + rest),
                    None => None,
                }
            }
        }
    }
}

/// The lines, as UTF-8 bytes, that a log message with the prefix `base` takes on a
/// terminal `width` bytes wide: one line when prefix and message fit, else chunks.
pub open spec fn chunk_lines(message: Seq<char>, base: Seq<char>, width: nat) -> Option<Seq<Seq<u8>>> {
    let msg = encode_utf8(message);
    let pre = encode_utf8(base);
    if msg.len() + pre.len() <= width {
        Some(seq![pre + msg])
    } else {
        chunks_from(msg, base, width, 0, 0)
    }
}

/// Every line that cutting gives fits the width.
pub proof fn lemma_chunks_fit(msg: Seq<u8>, base: Seq<char>, width: nat, start: nat, k: nat)
    ensures
        chunks_from(msg, base, width, start, k) matches Some(lines) ==> forall|i: int|
            0 <= i < lines.len() ==> #[trigger] lines[i].len() <= width,
    decreases msg.len() - start,
{
    if start < msg.len() {
        let p = encode_utf8(chunk_prefix(base, k));
        if p.len() < width {
            let size = (width - p.len()) as nat;
            let end = if start + size <= msg.len() {
                start + size
            } else {
                msg.len() as nat
            };
            lemma_chunks_fit(msg, base, width, end, k + 1);
            if let Some(lines) = chunks_from(msg, base, width, start, k) {
                let rest = chunks_from(msg, base, width, end, k + 1)->0;
                assert(lines == seq![p + msg.subrange(start as int, end as int)] + rest);
                assert forall|i: int| 0 <= i < lines.len() implies #[trigger] lines[i].len() <= width by {
                    if i > 0 {
                        assert(lines[i] == rest[i - 1]);
                    }
                }
            }
        }
    }
}

/// Each line but the last fills the width: its prefix and its part of the message take
/// exactly `width` bytes; the last one holds at least one byte of the message after its
/// prefix.
pub proof fn lemma_chunks_full(msg: Seq<u8>, base: Seq<char>, width: nat, start: nat, k: nat)
    ensures
        chunks_from(msg, base, width, start, k) matches Some(lines) ==> (forall|i: int|
            0 <= i < lines.len() - 1 ==> #[trigger] lines[i].len() == width) && (lines.len() > 0
            ==> lines.last().len() > encode_utf8(chunk_prefix(base, (k + lines.len() - 1) as nat)).len()),
    decreases msg.len() - start,
{
    if start < msg.len() {
        let p = encode_utf8(chunk_prefix(base, k));
        if p.len() < width {
            let size = (width - p.len()) as nat;
            let end = if start + size <= msg.len() {
                start + size
            } else {
                msg.len() as nat
            };
            lemma_chunks_full(msg, base, width, end, k + 1);
            if let Some(lines) = chunks_from(msg, base, width, start, k) {
                let rest = chunks_from(msg, base, width, end, k + 1)->0;
                assert(lines == seq![p + msg.subrange(start as int, end as int)] + rest);
                assert forall|i: int| 0 <= i < lines.len() - 1 implies #[trigger] lines[i].len()
                    == width by {
                    if i > 0 {
                        assert(lines[i] == rest[i - 1]);
                    } else {
                        assert(rest.len() > 0);
                        assert(end < msg.len() || rest.len() == 0);
                    }
                }
                if rest.len() > 0 {
                    assert(lines.last() == rest.last());
                    assert((k + lines.len() - 1) as nat == ((k + 1) + rest.len() - 1) as nat);
                }
            }
        }
    }
}

/// The lines are numbered in order: line `i` begins with `<base>#<k + i>] `.
pub proof fn lemma_chunks_numbered(msg: Seq<u8>, base: Seq<char>, width: nat, start: nat, k: nat)
    ensures
        chunks_from(msg, base, width, start, k) matches Some(lines) ==> forall|i: int|
            0 <= i < lines.len() ==> (#[trigger] lines[i]).subrange(
                0,
                encode_utf8(base + seq!['#'] + decimal((k + i) as nat) + seq![']', ' ']).len() as int,
            ) == encode_utf8(base + seq!['#'] + decimal((k + i) as nat) + seq![']', ' ']),
    decreases msg.len() - start,
{
    if start < msg.len() {
        let p = encode_utf8(chunk_prefix(base, k));
        if p.len() < width {
            let size = (width - p.len()) as nat;
            let end = if start + size <= msg.len() {
                start + size
            } else {
                msg.len() as nat
            };
            lemma_chunks_numbered(msg, base, width, end, k + 1);
            if let Some(lines) = chunks_from(msg, base, width, start, k) {
                let rest = chunks_from(msg, base, width, end, k + 1)->0;
                let piece = msg.subrange(start as int, end as int);
                assert(lines == seq![p + piece] + rest);
                assert forall|i: int| 0 <= i < lines.len() implies (#[trigger] lines[i]).subrange(
                    0,
                    encode_utf8(base + seq!['#'] + decimal((k + i) as nat) + seq![']', ' ']).len() as int,
                ) == encode_utf8(base + seq!['#'] + decimal((k + i) as nat) + seq![']', ' ']) by {
                    if i > 0 {
                        assert(lines[i] == rest[i - 1]);
                        assert((k + 1 + (i - 1)) as nat == (k + i) as nat);
                    } else {
                        assert((p + piece).subrange(0, p.len() as int) =~= p);
                    }
                }
            }
        }
    }
}

/// A log message that does not fit one line is cut so that every line but the last
/// takes the full width.
pub proof fn lemma_lines_full(message: Seq<char>, base: Seq<char>, width: nat)
    ensures
        chunk_lines(message, base, width) matches Some(lines) ==> forall|i: int|
            0 <= i < lines.len() - 1 ==> #[trigger] lines[i].len() == width,
{
    lemma_chunks_full(encode_utf8(message), base, width, 0, 0);
}

/// The message bytes that lines cut from `start` hold after their prefixes.
pub open spec fn parts(lines: Seq<Seq<u8>>, base: Seq<char>, k: nat) -> Seq<u8>
    decreases lines.len(),
{
    if lines.len() == 0 {
        seq![]
    } else {
        lines[0].skip(encode_utf8(chunk_prefix(base, k)).len() as int) + parts(
            lines.drop_first(),
            base,
            k + 1,
        )
    }
}

/// Cutting loses nothing: after their prefixes, the lines hold the message from `start`
/// on, in order.
pub proof fn lemma_chunks_reassemble(msg: Seq<u8>, base: Seq<char>, width: nat, start: nat, k: nat)
    requires
        start <= msg.len(),
    ensures
        chunks_from(msg, base, width, start, k) matches Some(lines) ==> parts(lines, base, k)
            == msg.skip(start as int),
    decreases msg.len() - start,
{
    if start == msg.len() {
        assert(msg.skip(start as int) =~= Seq::<u8>::empty());
    } else {
        let p = encode_utf8(chunk_prefix(base, k));
        if p.len() < width {
            let size = (width - p.len()) as nat;
            let end = if start + size <= msg.len() {
                start + size
            } else {
                msg.len() as nat
            };
            lemma_chunks_reassemble(msg, base, width, end, k + 1);
            if let Some(lines) = chunks_from(msg, base, width, start, k) {
                let rest = chunks_from(msg, base, width, end, k + 1)->0;
                let piece = msg.subrange(start as int, end as int);
                assert(lines == seq![p + piece] + rest);
                assert(lines.drop_first() =~= rest);
                assert((p + piece).skip(p.len() as int) =~= piece);
                assert(piece + msg.skip(end as int) =~= msg.skip(start as int));
            }
        }
    }
}

/// Every line of a log message fits the terminal, where it is cut for a known width.
pub proof fn lemma_lines_fit(message: Seq<char>, base: Seq<char>, width: nat)
    ensures
        chunk_lines(message, base, width) matches Some(lines) ==> forall|i: int|
            0 <= i < lines.len() ==> #[trigger] lines[i].len() <= width,
{
    lemma_encode_concat(base, message);
    lemma_chunks_fit(encode_utf8(message), base, width, 0, 0);
}

/// The UTF-8 encodings of a list of strings.
pub open spec fn encodings(v: Seq<String>) -> Seq<Seq<u8>> {
    v.map_values(|s: String| encode_utf8(s@))
}

/// Formats log messages into screen lines.
pub struct LogFormatter;

impl LogFormatter {
    /// Cuts a log message with the prefix `base_prefix` into lines for a terminal
    /// `width` columns wide; `None` where `chunk_lines` says that cutting fails.
    pub fn chuck_message(message: &str, base_prefix: &str, width: u16) -> (r: Option<Vec<String>>)
        ensures
            match r {
                Some(lines) => chunk_lines(message@, base_prefix@, width as nat) == Some(
                    encodings(lines@),
                ),
                None => chunk_lines(message@, base_prefix@, width as nat) is None,
            },
    {
        let w = width as usize;
        let mlen = str_byte_len(message);
        let plen = str_byte_len(base_prefix);
        if mlen <= w && plen <= w - mlen {
            let mut line = String::from_str(base_prefix);
            line.append(message);
            let mut out: Vec<String> = Vec::new();
            out.push(line);
            proof {
                lemma_encode_concat(base_prefix@, message@);
                assert(encodings(out@) =~= seq![encode_utf8(base_prefix@) + encode_utf8(message@)]);
            }
            return Some(out);
        }
        Self::chunk_rest(message, base_prefix, width)
    }

    fn chunk_rest(message: &str, base_prefix: &str, width: u16) -> (r: Option<Vec<String>>)
        ensures
            match r {
                Some(lines) => chunks_from(message.spec_bytes(), base_prefix@, width as nat, 0, 0)
                    == Some(encodings(lines@)),
                None => chunks_from(message.spec_bytes(), base_prefix@, width as nat, 0, 0) is None,
            },
    {
        let ghost msg = message.spec_bytes();
        let ghost base = base_prefix@;
        let ghost wn = width as nat;
        let mlen = str_byte_len(message);
        let blen = str_byte_len(base_prefix);
        let w = width as usize;
        let mut out: Vec<String> = Vec::new();
        let mut start: usize = 0;
        let mut k: usize = 0;
        proof {
            assert(encodings(out@) =~= Seq::<Seq<u8>>::empty());
            match chunks_from(msg, base, wn, 0, 0) {
                Some(rest) => assert(encodings(out@) + rest =~= rest),
                None => {},
            }
        }
        while start < mlen
            invariant
                mlen == msg.len(),
                w == wn,
                wn == width as nat,
                msg == message.spec_bytes(),
                base == base_prefix@,
                blen == base_prefix.spec_bytes().len(),
                k <= start,
                chunks_from(msg, base, wn, 0, 0) == match chunks_from(msg, base, wn, start as nat, k as nat) {
                    Some(rest) => Some(encodings(out@) + rest),
                    None => None::<Seq<Seq<u8>>>,
                },
            decreases mlen - start,
        {
            let num = usize_to_decimal(k);
            proof {
                lemma_decimal_ascii(k as nat);
                lemma_decimal_len(k as nat);
                is_ascii_chars_encode_utf8(decimal(k as nat));
            }
            let nlen = str_byte_len(num.as_str());
            let mut prefix = String::from_str(base_prefix);
            prefix.append("#");
            prefix.append(num.as_str());
            prefix.append("] ");
            let ghost p = encode_utf8(chunk_prefix(base, k as nat));
            proof {
                reveal_strlit("#");
                reveal_strlit("] ");
                assert(prefix@ =~= chunk_prefix(base, k as nat));
                lemma_prefix_len(base, k as nat);
            }
            proof {
                assert(blen == encode_utf8(base).len());
                assert(nlen == decimal(k as nat).len());
                assert(p.len() == blen + nlen + 3);
            }
            if blen >= w || nlen >= w - blen || 3 >= w - blen - nlen {
                proof {
                    assert(p.len() >= wn);
                    assert(chunks_from(msg, base, wn, start as nat, k as nat) is None);
                }
                return None;
            }
            let size = w - blen - nlen - 3;
            let end = if size <= mlen - start { start + size } else { mlen };
            if !message.is_char_boundary(start) || !message.is_char_boundary(end) {
                proof {
                    assert(chunks_from(msg, base, wn, start as nat, k as nat) is None);
                }
                return None;
            }
            let (head, _) = message.split_at(end);
            proof {
                lemma_boundary_in_prefix(msg, start as int, end as int);
            }
            let (_, part) = head.split_at(start);
            let ghost piece = msg.subrange(start as int, end as int);
            proof {
                assert(part.spec_bytes() =~= piece);
            }
            let mut line = prefix;
            line.append(part);
            proof {
                lemma_encode_concat(chunk_prefix(base, k as nat), part@);
                assert(encode_utf8(line@) == p + piece);
            }
            let ghost old_out = out@;
            out.push(line);
            proof {
                assert(encodings(out@) =~= encodings(old_out).push(p + piece));
            }
            start = end;
            proof {
                match chunks_from(msg, base, wn, start as nat, (k + 1) as nat) {
                    Some(rest) => {
                        assert(encodings(old_out) + (seq![p + piece] + rest)
                            =~= encodings(out@) + rest);
                    },
                    None => {},
                }
            }
            k = k + 1;
        }
        proof {
            assert(encodings(out@) + Seq::<Seq<u8>>::empty() =~= encodings(out@));
        }
        Some(out)
    }
}

/// Decimal notation uses ASCII digits only.
pub proof fn lemma_decimal_ascii(n: nat)
    ensures
        is_ascii_chars(decimal(n)),
    decreases n,
{
    if n >= 10 {
        lemma_decimal_ascii(n / 10);
    }
}

/// A number has at most one more digit than its value.
pub proof fn lemma_decimal_len(n: nat)
    ensures
        1 <= decimal(n).len() <= n + 1,
    decreases n,
{
    if n >= 10 {
        lemma_decimal_len(n / 10);
    }
}

/// The encoded length of a chunk prefix: the base, `#`, the digits, and `] `.
proof fn lemma_prefix_len(base: Seq<char>, k: nat)
    ensures
        encode_utf8(chunk_prefix(base, k)).len() == encode_utf8(base).len() + decimal(k).len() + 3,
{
    lemma_decimal_ascii(k);
    is_ascii_chars_encode_utf8(decimal(k));
    let a = base + seq!['#'];
    let b = a + decimal(k);
    lemma_encode_concat(b, seq![']', ' ']);
    lemma_encode_concat(a, decimal(k));
    lemma_encode_concat(base, seq!['#']);
    assert(is_ascii_chars(seq![']', ' ']));
    is_ascii_chars_encode_utf8(seq![']', ' ']);
    assert(is_ascii_chars(seq!['#']));
    is_ascii_chars_encode_utf8(seq!['#']);
}

/// A character boundary of a valid UTF-8 text is one of each of its prefixes that
/// reaches it.
proof fn lemma_boundary_in_prefix(msg: Seq<u8>, start: int, end: int)
    requires
        valid_utf8(msg),
        0 <= start <= end <= msg.len(),
        is_char_boundary(msg, start),
        is_char_boundary(msg, end),
    ensures
        valid_utf8(msg.subrange(0, end)),
        is_char_boundary(msg.subrange(0, end), start),
{
    let head = msg.subrange(0, end);
    valid_utf8_split(msg, end);
    if start == end {
        is_char_boundary_start_end_of_seq(head);
        assert(head.len() == end);
    } else {
        is_char_boundary_iff_not_is_continuation_byte(msg, start);
        is_char_boundary_iff_not_is_continuation_byte(head, start);
        assert(head[start] == msg[start]);
    }
}

} // verus!

verus! {

/// `crossterm::terminal::size`: the terminal's columns and rows, or `None` where it
/// reports an error. Nothing is stated of the values: they come from the terminal.
#[verifier::external_body]
pub(crate) fn terminal_size() -> (r: Option<(u16, u16)>) {
    crossterm::terminal::size().ok()
}

/// The lines of a log message for a terminal of the given width: the chunked lines
/// where the width is known and chunking succeeds, else the prefix and message as one
/// line.
pub open spec fn log_lines(message: Seq<char>, base: Seq<char>, width: Option<u16>) -> Seq<Seq<u8>> {
    match width {
        Some(w) => match chunk_lines(message, base, w as nat) {
            Some(lines) => lines,
            None => seq![encode_utf8(base + message)],
        },
        None => seq![encode_utf8(base + message)],
    }
}

impl LogFormatter {
    /// The width of the terminal, where it can be read.
    pub fn terminal_width() -> (r: Option<u16>) {
        match terminal_size() {
            Some((w, _)) => Some(w),
            None => None,
        }
    }

    /// The lines of a log message for a terminal of the given width (see `log_lines`).
    pub fn lines_for(message: &str, base_prefix: &str, width: Option<u16>) -> (r: Vec<String>)
        ensures
            encodings(r@) == log_lines(message@, base_prefix@, width),
    {
        if let Some(w) = width {
            if let Some(lines) = Self::chuck_message(message, base_prefix, w) {
                return lines;
            }
        }
        let mut line = String::from_str(base_prefix);
        line.append(message);
        let mut out: Vec<String> = Vec::new();
        out.push(line);
        proof {
            assert(encodings(out@) =~= seq![encode_utf8(base_prefix@ + message@)]);
        }
        out
    }

    /// An error message, as lines for the terminal as it is now.
    pub fn error(message: &str) -> (r: Vec<String>)
        ensures
            exists|w: Option<u16>| encodings(r@) == log_lines(message@, "[Error] "@, w),
    {
        let w = Self::terminal_width();
        let r = Self::lines_for(message, "[Error] ", w);
        assert(encodings(r@) == log_lines(message@, "[Error] "@, w));
        r
    }

    /// An informational message, as lines for the terminal as it is now.
    pub fn info(message: &str) -> (r: Vec<String>)
        ensures
            exists|w: Option<u16>| encodings(r@) == log_lines(message@, "[Info] "@, w),
    {
        let w = Self::terminal_width();
        let r = Self::lines_for(message, "[Info] ", w);
        assert(encodings(r@) == log_lines(message@, "[Info] "@, w));
        r
    }
}

} // verus!
