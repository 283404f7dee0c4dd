//! The victory banner's layout.
//!
//! The congratulatory phrase is drawn in big block letters by the outside
//! figlet capability; the drawing is a function of the message alone, so
//! its text and height carry names that the contracts speak of. Verified
//! code does everything after the call: splitting the drawn block into
//! lines, measuring the widest line, and centering the block on the
//! terminal — or skipping it entirely when it would not fit.

use vstd::prelude::*;

verus! {

/// What the standard big font draws for a message: the drawn block's
/// text. The font is a constant embedded in the outside crate, so the
/// result is a function of the message alone; its content is named, not
/// written out.
pub uninterp spec fn banner_text_of(message: Seq<char>) -> Seq<char>;

/// What the standard big font draws for a message: the drawn block's
/// height in rows.
pub uninterp spec fn banner_height_of(message: Seq<char>) -> int;

/// Relies on figlet_rs's `FIGlet::standard`, `FIGlet::convert`,
/// `FIGure::as_str` and `FIGure::height`: the message drawn in the
/// crate's constant embedded standard font — each row of the block ended
/// by a newline — and the block's row count, a function of the message
/// alone; or nothing when the font data cannot be parsed or the message
/// cannot be drawn.
#[verifier::external_body]
fn draw_banner(message: &str) -> (r: Option<(String, u32)>)
    ensures
        r matches Some(p) ==> p.0@ == banner_text_of(message@) && p.1 as int == banner_height_of(
            message@,
        ),
{
    let font = figlet_rs::FIGlet::standard().ok()?;
    let figure = font.convert(message)?;
    Some((figure.as_str(), figure.height))
}

/// The text split at newline characters: the segments between them, in
/// order, where a final newline ends the last line rather than opening an
/// empty one.
pub open spec fn line_split(s: Seq<char>) -> Seq<Seq<char>>
    decreases s.len(),
{
    if s.len() == 0 {
        Seq::empty()
    } else if s[0] == '\n' {
        seq![Seq::<char>::empty()] + line_split(s.skip(1))
    } else {
        let rest = line_split(s.skip(1));
        if rest.len() == 0 {
            seq![seq![s[0]]]
        } else {
            seq![seq![s[0]] + rest[0]] + rest.skip(1)
        }
    }
}

proof fn lemma_split_no_nl(t: Seq<char>)
    requires
        t.len() > 0,
        forall|k: int| 0 <= k < t.len() ==> t[k] != '\n',
    ensures
        line_split(t) == seq![t],
    decreases t.len(),
{
    assert(t[0] != '\n');
    if t.len() == 1 {
        assert(t.skip(1) =~= Seq::<char>::empty());
        assert(line_split(t.skip(1)) =~= Seq::<Seq<char>>::empty());
        assert(seq![t[0]] =~= t);
        assert(line_split(t) =~= seq![t]);
    } else {
        lemma_split_no_nl(t.skip(1));
        assert(seq![t[0]] + t.skip(1) =~= t);
        assert(seq![t.skip(1)].skip(1) =~= Seq::<Seq<char>>::empty());
        assert(line_split(t) =~= seq![t]);
    }
}

proof fn lemma_split_first_nl(c: Seq<char>, t: Seq<char>)
    requires
        forall|k: int| 0 <= k < c.len() ==> c[k] != '\n',
    ensures
        line_split(c + seq!['\n'] + t) == seq![c] + line_split(t),
    decreases c.len(),
{
    let s = c + seq!['\n'] + t;
    if c.len() == 0 {
        assert(s[0] == '\n');
        assert(s.skip(1) =~= t);
        assert(c =~= Seq::<char>::empty());
        assert(seq![Seq::<char>::empty()] + line_split(t) =~= seq![c] + line_split(t));
    } else {
        assert(s[0] == c[0]);
        assert(s.skip(1) =~= c.skip(1) + seq!['\n'] + t);
        lemma_split_first_nl(c.skip(1), t);
        let rest = line_split(s.skip(1));
        assert(rest == seq![c.skip(1)] + line_split(t));
        assert(rest.len() >= 1);
        assert(rest[0] == c.skip(1));
        assert(seq![s[0]] + c.skip(1) =~= c);
        assert(rest.skip(1) =~= line_split(t));
        assert(line_split(s) =~= seq![c] + line_split(t));
    }
}

/// Splits a text into its lines at newline characters, as `line_split`
/// says: segments in order, a final newline ending the last line.
pub fn split_lines(s: &str) -> (r: Vec<Vec<char>>)
    ensures
        r.deep_view() == line_split(s@),
{
    let n = s.unicode_len();
    let mut out: Vec<Vec<char>> = Vec::new();
    let mut cur: Vec<char> = Vec::new();
    let mut i: usize = 0;
    proof {
        assert(cur@ + s@.skip(0) =~= s@);
        assert(out.deep_view() + line_split(s@) =~= line_split(s@));
    }
    while i < n
        invariant
            n == s@.len(),
            i <= n,
            forall|k: int| 0 <= k < cur@.len() ==> cur@[k] != '\n',
            line_split(s@) == out.deep_view() + line_split(cur@ + s@.skip(i as int)),
        decreases n - i,
    {
        let ghost ocur = cur@;
        let ghost oout = out.deep_view();
        let c = s.get_char(i);
        proof {
            assert(s@.skip(i as int) =~= seq![c] + s@.skip(i as int + 1));
        }
        if c == '\n' {
            proof {
                assert(ocur + s@.skip(i as int) =~= ocur + seq!['\n'] + s@.skip(i as int + 1));
                lemma_split_first_nl(ocur, s@.skip(i as int + 1));
            }
            out.push(cur);
            cur = Vec::new();
            proof {
                assert(out.deep_view() =~~= oout.push(ocur));
                assert(cur@ + s@.skip(i as int + 1) =~= s@.skip(i as int + 1));
                assert(oout + (seq![ocur] + line_split(s@.skip(i as int + 1))) =~= oout.push(ocur)
                    + line_split(s@.skip(i as int + 1)));
            }
        } else {
            cur.push(c);
            proof {
                assert(cur@ + s@.skip(i as int + 1) =~= ocur + s@.skip(i as int));
            }
        }
        i = i + 1;
    }
    proof {
        assert(cur@ + s@.skip(n as int) =~= cur@);
    }
    if cur.len() > 0 {
        let ghost ocur = cur@;
        let ghost oout = out.deep_view();
        proof {
            lemma_split_no_nl(ocur);
        }
        out.push(cur);
        proof {
            assert(out.deep_view() =~~= oout.push(ocur));
            assert(oout + seq![ocur] =~= oout.push(ocur));
        }
    } else {
        proof {
            assert(line_split(cur@) =~= Seq::<Seq<char>>::empty());
            assert(out.deep_view() + line_split(cur@) =~= out.deep_view());
        }
    }
    out
}

/// The widest line's length; 1 where there is no line at all.
pub open spec fn max_width(lines: Seq<Seq<char>>) -> int
    decreases lines.len(),
{
    if lines.len() == 0 {
        1
    } else if lines.len() == 1 {
        lines[0].len() as int
    } else {
        let rest = max_width(lines.drop_last());
        if lines.last().len() > rest {
            lines.last().len() as int
        } else {
            rest
        }
    }
}

/// Measures the widest line of a block, as `max_width` says.
pub fn measure_width(lines: &Vec<Vec<char>>) -> (r: usize)
    ensures
        r == max_width(lines.deep_view()),
{
    if lines.len() == 0 {
        return 1;
    }
    let mut m: usize = lines[0].len();
    let mut i: usize = 1;
    proof {
        assert(lines.deep_view().take(1).len() == 1);
        assert(lines.deep_view().take(1)[0] =~= lines@[0]@);
    }
    while i < lines.len()
        invariant
            1 <= i <= lines@.len(),
            m == max_width(lines.deep_view().take(i as int)),
        decreases lines@.len() - i,
    {
        let w = lines[i].len();
        proof {
            let dv = lines.deep_view();
            assert(dv.take(i as int + 1).drop_last() =~= dv.take(i as int));
            assert(dv.take(i as int + 1).last() =~= lines@[i as int]@);
        }
        if w > m {
            m = w;
        }
        i = i + 1;
    }
    proof {
        assert(lines.deep_view().take(lines@.len() as int) =~= lines.deep_view());
    }
    m
}

/// Centered placement of a block of the given size on a terminal of the
/// given size, or nothing where the block does not fit.
pub fn banner_midpoint(wd: usize, ht: usize, m_w: usize, m_h: usize) -> (r: Option<(usize, usize)>)
    ensures
        r is Some <==> m_w <= wd && m_h <= ht,
        r matches Some(p) ==> p.0 == (wd - m_w) / 2 && p.1 == (ht - m_h) / 2,
{
    if m_w > wd || m_h > ht {
        None
    } else {
        Some(((wd - m_w) / 2, (ht - m_h) / 2))
    }
}

/// A laid-out victory banner: its text lines, measured size, and the
/// top-left corner of its centered placement.
pub struct BannerLayout {
    pub lines: Vec<Vec<char>>,
    pub width: usize,
    pub height: usize,
    pub x: usize,
    pub y: usize,
}

/// The fixed congratulatory phrase of the victory banner.
pub open spec fn victory_phrase() -> Seq<char> {
    "You Did It!"@
}

/// Lays out a measured block of the given height for a terminal of the
/// given size: the block, its measured width, and its centered top-left
/// corner — exactly when it fits, and nothing otherwise.
pub fn place_banner(lines: Vec<Vec<char>>, height: usize, wd: usize, ht: usize) -> (r: Option<
    BannerLayout,
>)
    ensures
        r is Some <==> max_width(lines.deep_view()) <= wd && height <= ht,
        r matches Some(b) ==> b.lines.deep_view() == lines.deep_view() && b.width == max_width(
            lines.deep_view(),
        ) && b.height == height && b.x == (wd - b.width) / 2 && b.y == (ht - b.height) / 2,
{
    let width = measure_width(&lines);
    match banner_midpoint(wd, ht, width, height) {
        Some(p) => Some(BannerLayout { lines, width, height, x: p.0, y: p.1 }),
        None => None,
    }
}

/// Lays out the fixed congratulatory phrase for a terminal of the given
/// size: the phrase drawn in the standard big font, split into lines,
/// measured, and centered — exactly when the drawn block fits. Nothing
/// when the outside font capability fails or the block does not fit; what
/// a produced banner holds is pinned to the drawing's name.
pub fn victory_banner(wd: usize, ht: usize) -> (r: Option<BannerLayout>)
    ensures
        r matches Some(b) ==> b.lines.deep_view() == line_split(banner_text_of(victory_phrase()))
            && b.height as int == banner_height_of(victory_phrase()) && b.width == max_width(
            b.lines.deep_view(),
        ) && b.width <= wd && b.height <= ht && b.x == (wd - b.width) / 2 && b.y == (ht - b.height)
            / 2,
{
    let drawn = match draw_banner("You Did It!") {
        Some(p) => p,
        None => {
            return None;
        },
    };
    let (text, height32) = drawn;
    let lines = split_lines(text.as_str());
    let height = height32 as usize;
    place_banner(lines, height, wd, ht)
}

} // verus!
