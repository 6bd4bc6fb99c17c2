use crate::text::views;
use std::collections::VecDeque;
use vstd::prelude::*;

verus! {

/// The rows at the bottom of the terminal that the screen buffer does not use: the
/// status line and the input line.
pub const CANT_PRINT_RANGE_HEIGHT: u16 = 2;

/// A text cut into pieces of `w` characters, the last one shorter where it does not
/// divide evenly (what `chunks(w)` gives on its characters).
pub open spec fn pieces(s: Seq<char>, w: nat) -> Seq<Seq<char>>
    decreases s.len(),
{
    if w == 0 || s.len() == 0 {
        seq![]
    } else if s.len() <= w {
        seq![s]
    } else {
        seq![s.take(w as int)] + pieces(s.skip(w as int), w)
    }
}

/// Cutting a text into pieces loses nothing and each piece fits the width.
pub proof fn lemma_pieces(s: Seq<char>, w: nat)
    requires
        w > 0,
    ensures
        pieces(s, w).flatten() == s,
        forall|i: int| 0 <= i < pieces(s, w).len() ==> #[trigger] pieces(s, w)[i].len() <= w,
    decreases s.len(),
{
    if s.len() == 0 {
    } else if s.len() <= w {
        let p = pieces(s, w);
        assert(p.first() == s);
        assert(p.drop_first() =~= Seq::<Seq<char>>::empty());
        assert(p.drop_first().flatten() =~= Seq::<char>::empty());
        assert(p.flatten() =~= s);
    } else {
        lemma_pieces(s.skip(w as int), w);
        let p = pieces(s, w);
        assert(p.drop_first() =~= pieces(s.skip(w as int), w));
        assert(s.take(w as int) + s.skip(w as int) =~= s);
        assert forall|i: int| 0 <= i < p.len() implies #[trigger] p[i].len() <= w by {
            if i > 0 {
                assert(p[i] == pieces(s.skip(w as int), w)[i - 1]);
            }
        }
    }
}

/// Cutting for a width `w` gives pieces of exactly `w` characters, but for a last one
/// of 1 to `w`; so a line of at most `w` characters is one piece, and an empty line
/// none.
pub proof fn lemma_pieces_full_width(s: Seq<char>, w: nat)
    requires
        w > 0,
    ensures
        forall|i: int| 0 <= i < pieces(s, w).len() - 1 ==> #[trigger] pieces(s, w)[i].len() == w,
        pieces(s, w).len() > 0 ==> 0 < pieces(s, w).last().len() <= w,
        0 < s.len() <= w ==> pieces(s, w) == seq![s],
        s.len() == 0 <==> pieces(s, w).len() == 0,
    decreases s.len(),
{
    if s.len() > w {
        let t = s.skip(w as int);
        lemma_pieces_full_width(t, w);
        let p = pieces(s, w);
        assert(p.drop_first() =~= pieces(t, w));
        assert forall|i: int| 0 <= i < p.len() - 1 implies #[trigger] p[i].len() == w by {
            if i > 0 {
                assert(p[i] == pieces(t, w)[i - 1]);
            }
        }
        assert(p.last() == pieces(t, w).last());
    }
}

/// The screen lines of the first `i` entries of the buffer, newest first: the entries
/// from the `i`-th back to the first, each as its pieces from the last back to the
/// first.
pub open spec fn newest_first(buf: Seq<Seq<char>>, i: nat, w: nat) -> Seq<Seq<char>>
    decreases i,
{
    if i == 0 || i > buf.len() {
        seq![]
    } else {
        pieces(buf[i - 1], w).reverse() + newest_first(buf, (i - 1) as nat, w)
    }
}

/// What the screen shows for a buffer on a terminal `w` columns and `h` rows wide,
/// scrolled up by `view` lines: the rows from the top down, and the scroll offset that
/// the screen keeps after it (`None`: unchanged). `None` where the terminal has no room
/// for the buffer.
pub open spec fn spec_layout(buf: Seq<Seq<char>>, w: nat, h: nat, view: nat) -> Option<
    (Seq<Seq<char>>, Option<nat>),
> {
    if h <= CANT_PRINT_RANGE_HEIGHT {
        None
    } else {
        let can = (h - CANT_PRINT_RANGE_HEIGHT) as nat;
        let need = can + view;
        let all = newest_first(buf, buf.len(), w);
        let out = if all.len() <= need {
            all
        } else {
            all.take(need as int)
        };
        let delta: nat = if out.len() >= can {
            (out.len() - can) as nat
        } else {
            0
        };
        let rows = out.skip(delta as int).reverse();
        Some(
            (
                rows,
                if all.len() <= need {
                    Some(delta)
                } else {
                    None
                },
            ),
        )
    }
}

/// The rows never take more than the rows that the screen buffer may use.
pub proof fn lemma_layout_fits(buf: Seq<Seq<char>>, w: nat, h: nat, view: nat)
    ensures
        spec_layout(buf, w, h, view) matches Some((rows, _)) ==> rows.len() <= h
            - CANT_PRINT_RANGE_HEIGHT,
{
}

/// When all lines fit and the screen is not scrolled, it shows every line, oldest at
/// the top, and keeps the offset at 0.
pub proof fn lemma_layout_shows_all(buf: Seq<Seq<char>>, w: nat, h: nat)
    requires
        h > CANT_PRINT_RANGE_HEIGHT,
        newest_first(buf, buf.len(), w).len() <= h - CANT_PRINT_RANGE_HEIGHT,
    ensures
        spec_layout(buf, w, h, 0) == Some(
            (newest_first(buf, buf.len(), w).reverse(), Some(0nat)),
        ),
{
    let all = newest_first(buf, buf.len(), w);
    assert(all.skip(0) =~= all);
}

/// How far a screen of `p` rows over `n` lines is scrolled for a wanted offset `view`:
/// not at all where the lines all fit, else `view` but at most to the oldest line.
pub open spec fn clamped_view(n: nat, p: nat, view: nat) -> nat {
    if n <= p {
        0
    } else if view <= n - p {
        view
    } else {
        (n - p) as nat
    }
}

/// The layout in closed form: of all the screen lines, oldest first, the rows are the
/// window of (at most) `h - 2` lines that ends `v` lines before the newest, where `v` is
/// the scroll offset clamped by `clamped_view`; the offset kept afterwards is `v`.
pub proof fn lemma_layout_window(buf: Seq<Seq<char>>, w: nat, h: nat, view: nat)
    requires
        h > CANT_PRINT_RANGE_HEIGHT,
    ensures
        ({
            let lines = newest_first(buf, buf.len(), w).reverse();
            let n = lines.len();
            let p = (h - CANT_PRINT_RANGE_HEIGHT) as nat;
            let v = clamped_view(n, p, view);
            spec_layout(buf, w, h, view) matches Some((rows, kept)) && rows == lines.subrange(
                if n <= p {
                    0
                } else {
                    n - v - p
                },
                n - v,
            ) && match kept {
                Some(d) => d == v,
                None => v == view,
            }
        }),
{
    let all = newest_first(buf, buf.len(), w);
    let lines = all.reverse();
    let n = lines.len();
    let p = (h - CANT_PRINT_RANGE_HEIGHT) as nat;
    let v = clamped_view(n, p, view);
    let need = p + view;
    let out = if all.len() <= need {
        all
    } else {
        all.take(need as int)
    };
    let delta: nat = if out.len() >= p {
        (out.len() - p) as nat
    } else {
        0
    };
    let start: int = if n <= p {
        0
    } else {
        n - v - p
    };
    assert(delta == v);
    assert(out.skip(delta as int).reverse() =~= lines.subrange(start, n - v)) by {
        assert forall|i: int| 0 <= i < n - v - start implies #[trigger] out.skip(delta as int).reverse()[i]
            == lines.subrange(start, n - v)[i] by {
            assert(lines[start + i] == all[n - 1 - (start + i)]);
        }
    }
}

/// The rows to print and the scroll offset to keep.
pub struct ScreenLayout {
    /// The rows, from the top of the terminal down.
    pub rows: Vec<String>,
    /// The new scroll offset, where everything fitted; else the offset stays.
    pub new_view: Option<u16>,
}

/// Cuts a text into pieces of `w` characters.
pub fn cut_pieces(s: &str, w: usize) -> (r: Vec<String>)
    requires
        w > 0,
    ensures
        views(r@) == pieces(s@, w as nat),
{
    let n = s.unicode_len();
    let mut out: Vec<String> = Vec::new();
    let mut pos: usize = 0;
    proof {
        assert(s@.skip(0) =~= s@);
        assert(views(out@) + pieces(s@.skip(0), w as nat) =~= pieces(s@, w as nat));
    }
    while pos < n
        invariant
            n == s@.len(),
            w > 0,
            pos <= n,
            views(out@) + pieces(s@.skip(pos as int), w as nat) == pieces(s@, w as nat),
        decreases n - pos,
    {
        let ghost rest = s@.skip(pos as int);
        let end = if w <= n - pos { pos + w } else { n };
        let piece = String::from_str(s.substring_char(pos, end));
        let ghost before = views(out@);
        out.push(piece);
        proof {
            assert(views(out@) =~= before.push(piece@));
            if rest.len() <= w {
                assert(piece@ =~= rest);
                assert(s@.skip(end as int) =~= Seq::<char>::empty());
                assert(pieces(rest, w as nat) == seq![rest]);
                assert(before + seq![rest] =~= before.push(piece@) + Seq::<Seq<char>>::empty());
            } else {
                assert(piece@ =~= rest.take(w as int));
                assert(rest.skip(w as int) =~= s@.skip(end as int));
                assert(before + (seq![rest.take(w as int)] + pieces(rest.skip(w as int), w as nat))
                    =~= before.push(piece@) + pieces(s@.skip(end as int), w as nat));
            }
        }
        pos = end;
    }
    proof {
        assert(s@.skip(n as int) =~= Seq::<char>::empty());
        assert(views(out@) + Seq::<Seq<char>>::empty() =~= views(out@));
    }
    out
}

/// The screen lines of the entries from the `n`-th back to the `i+1`-th, newest first.
pub open spec fn emitted(buf: Seq<Seq<char>>, i: nat, n: nat, w: nat) -> Seq<Seq<char>>
    decreases n,
{
    if n <= i || n > buf.len() {
        seq![]
    } else {
        pieces(buf[n - 1], w).reverse() + emitted(buf, i, (n - 1) as nat, w)
    }
}

proof fn lemma_emitted_split(buf: Seq<Seq<char>>, i: nat, n: nat, w: nat)
    requires
        i <= n <= buf.len(),
    ensures
        newest_first(buf, n, w) == emitted(buf, i, n, w) + newest_first(buf, i, w),
    decreases n,
{
    if n == i {
        assert(emitted(buf, i, n, w) + newest_first(buf, i, w) =~= newest_first(buf, i, w));
    } else {
        lemma_emitted_split(buf, i, (n - 1) as nat, w);
        assert(pieces(buf[n - 1], w).reverse() + (emitted(buf, i, (n - 1) as nat, w) + newest_first(
            buf,
            i,
            w,
        )) =~= (pieces(buf[n - 1], w).reverse() + emitted(buf, i, (n - 1) as nat, w))
            + newest_first(buf, i, w));
    }
}

/// Lays out the screen buffer on a terminal `w` columns and `h` rows wide, scrolled up
/// by `view` lines (see `spec_layout`).
pub fn layout_screen(buf: &VecDeque<String>, w: u16, h: u16, view: u16) -> (r: Option<ScreenLayout>)
    requires
        h > CANT_PRINT_RANGE_HEIGHT && buf@.len() > 0 ==> w > 0,
        h > CANT_PRINT_RANGE_HEIGHT ==> h - CANT_PRINT_RANGE_HEIGHT + view <= u16::MAX,
    ensures
        match r {
            None => spec_layout(views(buf@), w as nat, h as nat, view as nat) is None,
            Some(l) => spec_layout(views(buf@), w as nat, h as nat, view as nat) == Some(
                (
                    views(l.rows@),
                    match l.new_view {
                        Some(v) => Some(v as nat),
                        None => None::<nat>,
                    },
                ),
            ),
        },
{
    if h <= CANT_PRINT_RANGE_HEIGHT {
        return None;
    }
    let can = h - CANT_PRINT_RANGE_HEIGHT;
    let need = (can + view) as usize;
    let ghost b = views(buf@);
    let ghost wn = w as nat;
    let n = buf.len();
    let ghost all = newest_first(b, n as nat, wn);
    let mut out: Vec<String> = Vec::new();
    let mut finished = true;
    let mut i = n;
    proof {
        assert(views(out@) =~= emitted(b, n as nat, n as nat, wn));
    }
    while i > 0
        invariant
            n == b.len(),
            b == views(buf@),
            wn == w as nat,
            n > 0 ==> w > 0,
            i <= n,
            finished ==> views(out@) == emitted(b, i as nat, n as nat, wn) && out@.len() <= need,
            !finished ==> out@.len() == need && emitted(b, i as nat, n as nat, wn).len() > need
                && views(out@) == emitted(b, i as nat, n as nat, wn).take(need as int),
        decreases i,
    {
        let ps = cut_pieces(buf[i - 1].as_str(), w as usize);
        let ghost e = emitted(b, i as nat, n as nat, wn);
        let ghost rp = pieces(b[i - 1], wn).reverse();
        proof {
            assert(buf@[i - 1]@ == b[i - 1]);
            assert(emitted(b, (i - 1) as nat, n as nat, wn) =~= e + rp) by {
                lemma_emitted_push(b, (i - 1) as nat, n as nat, wn);
            }
        }
        let mut j = ps.len();
        proof {
            assert(rp.take(0) =~= Seq::<Seq<char>>::empty());
            if finished {
                assert(views(out@) =~= e + rp.take(0));
            } else {
                assert((e + rp).take(need as int) =~= e.take(need as int));
            }
        }
        while j > 0
            invariant
                j <= ps@.len(),
                views(ps@) == pieces(b[i - 1], wn),
                rp == pieces(b[i - 1], wn).reverse(),
                rp.len() == ps@.len(),
                finished ==> views(out@) == e + rp.take(ps@.len() - j) && out@.len() <= need,
                !finished ==> out@.len() == need && (e + rp).len() > need && views(out@) == (e
                    + rp).take(need as int),
            ensures
                finished ==> j == 0,
                j <= ps@.len(),
                finished ==> views(out@) == e + rp.take(ps@.len() - j) && out@.len() <= need,
                !finished ==> out@.len() == need && (e + rp).len() > need && views(out@) == (e
                    + rp).take(need as int),
            decreases j,
        {
            if out.len() == need {
                proof {
                    if finished {
                        assert((e + rp).take(need as int) =~= e + rp.take(ps@.len() - j));
                    }
                }
                finished = false;
                break;
            }
            let piece = ps[j - 1].clone();
            let ghost before = views(out@);
            out.push(piece);
            proof {
                assert(views(out@) =~= before.push(piece@));
                assert(piece@ == rp[ps@.len() - j]);
                assert(e + rp.take(ps@.len() - j + 1) =~= (e + rp.take(ps@.len() - j)).push(
                    rp[ps@.len() - j],
                ));
            }
            j = j - 1;
        }
        proof {
            if finished {
                assert(rp.take(ps@.len() as int) =~= rp);
            }
        }
        i = i - 1;
    }
    proof {
        lemma_emitted_split(b, 0, n as nat, wn);
        assert(newest_first(b, 0, wn) =~= Seq::<Seq<char>>::empty());
        assert(emitted(b, 0, n as nat, wn) + Seq::<Seq<char>>::empty() =~= emitted(b, 0, n as nat, wn));
        assert(all == emitted(b, 0, n as nat, wn));
    }
    let len = out.len();
    let delta: usize = if len >= can as usize { len - can as usize } else { 0 };
    let mut rows: Vec<String> = Vec::new();
    let mut k = len;
    let ghost outv = views(out@);
    proof {
        assert(views(rows@) =~= outv.subrange(len as int, len as int).reverse());
    }
    while k > delta
        invariant
            delta <= k <= len,
            len == out@.len(),
            outv == views(out@),
            views(rows@) == outv.subrange(k as int, len as int).reverse(),
        decreases k,
    {
        let row = out[k - 1].clone();
        let ghost before = views(rows@);
        rows.push(row);
        proof {
            assert(views(rows@) =~= before.push(row@));
            assert(outv.subrange(k - 1, len as int).reverse() =~= outv.subrange(k as int, len as int).reverse().push(outv[k - 1]));
        }
        k = k - 1;
    }
    proof {
        assert(outv.subrange(delta as int, len as int) =~= outv.skip(delta as int));
        assert(views(rows@) =~= outv.skip(delta as int).reverse());
    }
    let new_view = if finished { Some(delta as u16) } else { None };
    Some(ScreenLayout { rows, new_view })
}

proof fn lemma_emitted_push(buf: Seq<Seq<char>>, i: nat, n: nat, w: nat)
    requires
        i < n <= buf.len(),
    ensures
        emitted(buf, i, n, w) == emitted(buf, i + 1, n, w) + pieces(buf[i as int], w).reverse(),
    decreases n,
{
    if n == i + 1 {
        assert(emitted(buf, i + 1, n, w) =~= Seq::<Seq<char>>::empty());
        assert(emitted(buf, i, (n - 1) as nat, w) =~= Seq::<Seq<char>>::empty());
        assert(emitted(buf, i, n, w) =~= pieces(buf[i as int], w).reverse());
    } else {
        lemma_emitted_push(buf, i, (n - 1) as nat, w);
        assert(pieces(buf[n - 1], w).reverse() + (emitted(buf, i + 1, (n - 1) as nat, w) + pieces(
            buf[i as int],
            w,
        ).reverse()) =~= (pieces(buf[n - 1], w).reverse() + emitted(buf, i + 1, (n - 1) as nat, w))
            + pieces(buf[i as int], w).reverse());
    }
}

} // verus!
