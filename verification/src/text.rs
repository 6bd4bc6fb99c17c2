use vstd::prelude::*;
use vstd::string::StringSliceAdditionalSpecFns;

verus! {

/// The printable characters: ASCII letters and digits, and the symbols
/// `* ? @ ! # $ % & \`.
pub open spec fn printable_char(c: char) -> bool {
    ||| ('a' <= c && c <= 'z')
    ||| ('A' <= c && c <= 'Z')
    ||| ('0' <= c && c <= '9')
    ||| c == '*' || c == '?' || c == '@' || c == '!'
    ||| c == '#' || c == '$' || c == '%' || c == '&' || c == '\\'
}

/// Whether a character is printable (see `printable_char`).
pub fn is_char_printable(c: char) -> (r: bool)
    ensures
        r == printable_char(c),
{
    ('a' <= c && c <= 'z') || ('A' <= c && c <= 'Z') || ('0' <= c && c <= '9') || c == '*'
        || c == '?' || c == '@' || c == '!' || c == '#' || c == '$' || c == '%' || c == '&'
        || c == '\\'
}

/// The characters that a key press types into the input line: the printable ones,
/// and the space, the dot and the colon that commands and socket addresses are
/// written with (`conn 127.0.0.1:8080`, `msgbox <addr> <words>`).
pub open spec fn typeable_char(c: char) -> bool {
    printable_char(c) || c == ' ' || c == '.' || c == ':'
}

/// Whether a key press types the character into the input line.
pub fn is_char_typeable(c: char) -> (r: bool)
    ensures
        r == typeable_char(c),
{
    is_char_printable(c) || c == ' ' || c == '.' || c == ':'
}

/// Every character that can be typed is ASCII, so it takes one byte in UTF-8.
pub proof fn lemma_typeable_is_ascii(c: char)
    requires
        typeable_char(c),
    ensures
        '\0' <= c <= '\u{7f}',
{
}

/// The Unicode `White_Space` property.
pub open spec fn white_space(c: char) -> bool {
    ||| ('\u{9}' <= c && c <= '\u{d}')
    ||| c == ' ' || c == '\u{85}' || c == '\u{a0}' || c == '\u{1680}'
    ||| ('\u{2000}' <= c && c <= '\u{200a}')
    ||| c == '\u{2028}' || c == '\u{2029}' || c == '\u{202f}' || c == '\u{205f}'
    ||| c == '\u{3000}'
}

/// Whether a character is white space, as `char::is_whitespace` tells: the Unicode
/// `White_Space` property.
pub fn char_is_whitespace(c: char) -> (r: bool)
    ensures
        r == white_space(c),
{
    ('\u{9}' <= c && c <= '\u{d}') || c == ' ' || c == '\u{85}' || c == '\u{a0}' || c
        == '\u{1680}' || ('\u{2000}' <= c && c <= '\u{200a}') || c == '\u{2028}' || c
        == '\u{2029}' || c == '\u{202f}' || c == '\u{205f}' || c == '\u{3000}'
}

/// The length of a text in bytes: the length of its UTF-8 encoding.
pub(crate) fn str_byte_len(s: &str) -> (r: usize)
    ensures
        r as nat == s.spec_bytes().len(),
{
    s.as_bytes().len()
}

/// `String::push`. Trusted: the character is appended.
#[verifier::external_body]
pub(crate) fn push_char(s: &mut String, c: char)
    ensures
        final(s)@ == old(s)@.push(c),
{
    s.push(c)
}

/// The decimal digit for a value below ten.
pub open spec fn digit_char(d: nat) -> char {
    seq!['0', '1', '2', '3', '4', '5', '6', '7', '8', '9'][d as int]
}

/// The decimal notation of a natural number, without sign or leading zeros.
pub open spec fn decimal(n: nat) -> Seq<char>
    decreases n,
{
    if n < 10 {
        seq![digit_char(n)]
    } else {
        decimal(n / 10).push(digit_char(n % 10))
    }
}

/// The decimal digit for a value below ten.
fn digit(d: usize) -> (r: char)
    requires
        d < 10,
    ensures
        r == digit_char(d as nat),
{
    match d {
        0 => '0',
        1 => '1',
        2 => '2',
        3 => '3',
        4 => '4',
        5 => '5',
        6 => '6',
        7 => '7',
        8 => '8',
        _ => '9',
    }
}

/// The decimal notation of a number, as `to_string` writes it.
pub fn usize_to_decimal(n: usize) -> (r: String)
    ensures
        r@ == decimal(n as nat),
    decreases n,
{
    if n < 10 {
        let mut s = String::new();
        push_char(&mut s, digit(n));
        proof {
            assert(s@ =~= seq![digit_char(n as nat)]);
        }
        s
    } else {
        let mut s = usize_to_decimal(n / 10);
        push_char(&mut s, digit(n % 10));
        s
    }
}

/// The decimal notation of a number, as `to_string` writes it.
pub fn u32_to_decimal(n: u32) -> (r: String)
    ensures
        r@ == decimal(n as nat),
{
    usize_to_decimal(n as usize)
}

/// The words of a text as `str::split_whitespace` yields them: the maximal runs of
/// characters that are not white space, in order. `cur` is the run read so far.
pub open spec fn words_from(s: Seq<char>, cur: Seq<char>) -> Seq<Seq<char>>
    decreases s.len(),
{
    if s.len() == 0 {
        if cur.len() == 0 {
            seq![]
        } else {
            seq![cur]
        }
    } else if white_space(s[0]) {
        if cur.len() == 0 {
            words_from(s.drop_first(), seq![])
        } else {
            seq![cur] + words_from(s.drop_first(), seq![])
        }
    } else {
        words_from(s.drop_first(), cur.push(s[0]))
    }
}

/// A word: not empty, and without white space.
pub open spec fn is_word(w: Seq<char>) -> bool {
    w.len() > 0 && forall|i: int| 0 <= i < w.len() ==> !white_space(#[trigger] w[i])
}

proof fn lemma_words_from_are_words(s: Seq<char>, cur: Seq<char>)
    requires
        forall|i: int| 0 <= i < cur.len() ==> !white_space(#[trigger] cur[i]),
    ensures
        forall|i: int| 0 <= i < words_from(s, cur).len() ==> is_word(#[trigger] words_from(s, cur)[i]),
    decreases s.len(),
{
    if s.len() == 0 {
        if cur.len() != 0 {
            assert(words_from(s, cur) == seq![cur]);
            assert(is_word(cur));
        }
    } else if white_space(s[0]) {
        lemma_words_from_are_words(s.drop_first(), seq![]);
        if cur.len() == 0 {
            assert(words_from(s, cur) == words_from(s.drop_first(), seq![]));
        }
        if cur.len() != 0 {
            let r = words_from(s.drop_first(), seq![]);
            assert(is_word(cur));
            assert(words_from(s, cur) == seq![cur] + r);
            assert forall|i: int| 0 <= i < words_from(s, cur).len() implies is_word(#[trigger] words_from(s, cur)[i]) by {
                if i > 0 {
                    assert(words_from(s, cur)[i] == r[i - 1]);
                }
            }
        }
    } else {
        let c2 = cur.push(s[0]);
        assert forall|i: int| 0 <= i < c2.len() implies !white_space(#[trigger] c2[i]) by {
            if i < cur.len() {
                assert(c2[i] == cur[i]);
            }
        }
        lemma_words_from_are_words(s.drop_first(), c2);
        assert(words_from(s, cur) == words_from(s.drop_first(), c2));
    }
}

/// Every word of a text is a word: not empty, and without white space.
pub proof fn lemma_words_are_words(s: Seq<char>)
    ensures
        forall|i: int| 0 <= i < words(s).len() ==> is_word(#[trigger] words(s)[i]),
{
    lemma_words_from_are_words(s, seq![]);
}

/// The words of a text, split at white space.
pub open spec fn words(s: Seq<char>) -> Seq<Seq<char>> {
    words_from(s, seq![])
}

/// The views of a list of strings.
pub open spec fn views(v: Seq<String>) -> Seq<Seq<char>> {
    v.map_values(|s: String| s@)
}

/// Splits a text into its words at white space, as `str::split_whitespace` does.
pub fn split_words(text: &str) -> (r: Vec<String>)
    ensures
        views(r@) == words(text@),
{
    let n = text.unicode_len();
    let mut out: Vec<String> = Vec::new();
    let mut cur = String::new();
    let mut i: usize = 0;
    proof {
        assert(text@.skip(0) =~= text@);
        assert(views(out@) =~= Seq::<Seq<char>>::empty());
    }
    while i < n
        invariant
            n == text@.len(),
            i <= n,
            views(out@) + words_from(text@.skip(i as int), cur@) == words(text@),
        decreases n - i,
    {
        let c = text.get_char(i);
        let ghost rest = text@.skip(i as int);
        let ghost old_out = views(out@);
        let ghost old_cur = cur@;
        proof {
            assert(rest[0] == c);
            assert(rest.drop_first() =~= text@.skip(i + 1));
            assert(rest.len() > 0);
        }
        if char_is_whitespace(c) {
            if !cur.as_str().is_empty() {
                out.push(cur);
                cur = String::new();
                proof {
                    assert(views(out@) =~= old_out.push(old_cur));
                    assert(old_out + (seq![old_cur] + words_from(rest.drop_first(), seq![]))
                        =~= old_out.push(old_cur) + words_from(rest.drop_first(), seq![]));
                }
            } else {
                proof {
                    assert(words_from(rest, old_cur) == words_from(rest.drop_first(), seq![]));
                    assert(old_cur =~= Seq::<char>::empty());
                }
            }
        } else {
            push_char(&mut cur, c);
            proof {
                assert(words_from(rest, old_cur) == words_from(rest.drop_first(), old_cur.push(c)));
            }
        }
        i = i + 1;
    }
    proof {
        assert(text@.skip(n as int) =~= Seq::<char>::empty());
        if cur@.len() != 0 {
            assert(views(out@.push(cur)) =~= views(out@).push(cur@));
        }
    }
    if !cur.as_str().is_empty() {
        out.push(cur);
    }
    proof {
        assert(views(out@) =~= words(text@));
    }
    out
}

} // verus!

verus! {

/// Words joined with one space between each two.
pub open spec fn joined(ws: Seq<Seq<char>>) -> Seq<char>
    decreases ws.len(),
{
    if ws.len() == 0 {
        seq![]
    } else if ws.len() == 1 {
        ws[0]
    } else {
        joined(ws.drop_last()) + seq![' '] + ws.last()
    }
}

/// Joins words with one space between each two, as `Vec<String>::join(" ")` does.
pub fn join_words(ws: &[String]) -> (r: String)
    ensures
        r@ == joined(views(ws@)),
{
    let mut out = String::new();
    let mut i: usize = 0;
    while i < ws.len()
        invariant
            i <= ws@.len(),
            out@ == joined(views(ws@).take(i as int)),
        decreases ws@.len() - i,
    {
        proof {
            assert(views(ws@).take(i + 1).drop_last() =~= views(ws@).take(i as int));
            assert(views(ws@).take(i + 1).last() == ws@[i as int]@);
        }
        if i > 0 {
            push_char(&mut out, ' ');
        }
        out.append(ws[i].as_str());
        proof {
            if i == 0 {
                assert(out@ =~= joined(views(ws@).take(1)));
            }
        }
        i = i + 1;
    }
    proof {
        assert(views(ws@).take(ws@.len() as int) =~= views(ws@));
    }
    out
}

/// Whether a string holds exactly the given text.
pub fn text_is(s: &String, lit: &str) -> (r: bool)
    ensures
        r == (s@ == lit@),
{
    let l = String::from_str(lit);
    *s == l
}

} // verus!

verus! {

/// The text from byte `from` on, where `from` falls on a character boundary (else the
/// slice `&s[from..]` would panic).
pub fn byte_suffix(s: &str, from: usize) -> (r: Option<String>)
    ensures
        match r {
            Some(t) => from <= s.spec_bytes().len() && vstd::utf8::is_char_boundary(
                s.spec_bytes(),
                from as int,
            ) && vstd::utf8::encode_utf8(t@) == s.spec_bytes().skip(from as int),
            None => !(from <= s.spec_bytes().len() && vstd::utf8::is_char_boundary(
                s.spec_bytes(),
                from as int,
            )),
        },
{
    let n = str_byte_len(s);
    if from > n || !s.is_char_boundary(from) {
        return None;
    }
    let (_, tail) = s.split_at(from);
    proof {
        assert(tail.spec_bytes() =~= s.spec_bytes().skip(from as int));
    }
    Some(String::from_str(tail))
}

/// The text up to byte `to`, where `to` falls on a character boundary (else the slice
/// `&s[..to]` would panic).
pub fn byte_prefix(s: &str, to: usize) -> (r: Option<String>)
    ensures
        match r {
            Some(t) => to <= s.spec_bytes().len() && vstd::utf8::is_char_boundary(
                s.spec_bytes(),
                to as int,
            ) && vstd::utf8::encode_utf8(t@) == s.spec_bytes().take(to as int),
            None => !(to <= s.spec_bytes().len() && vstd::utf8::is_char_boundary(
                s.spec_bytes(),
                to as int,
            )),
        },
{
    let n = str_byte_len(s);
    if to > n || !s.is_char_boundary(to) {
        return None;
    }
    let (head, _) = s.split_at(to);
    proof {
        assert(head.spec_bytes() =~= s.spec_bytes().take(to as int));
    }
    Some(String::from_str(head))
}

} // verus!
