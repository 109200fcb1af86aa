use vstd::prelude::*;
use crate::event_loop::LoopEvent;

verus! {

/// One rendered frame: fixed-width cells and, for a color frame, one RGB
/// triple per cell.
pub struct StringInfo {
    /// Bytes per cell.
    pub char_len: u32,
    /// The cells, `char_len` bytes each, one after the other.
    pub string: Vec<u8>,
    /// Red, green and blue of each cell, one after the other; empty for a
    /// grayscale frame.
    pub rgb: Vec<u8>,
}

impl StringInfo {
    /// Cells have a positive width, the buffer holds whole cells, and a color
    /// frame has one triple per cell.
    pub open spec fn wf(&self) -> bool {
        &&& self.char_len > 0
        &&& self.string@.len() % (self.char_len as nat) == 0
        &&& (self.rgb@.len() == 0 || self.rgb@.len() == 3 * self.cells())
    }

    /// The number of cells.
    pub open spec fn cells(&self) -> nat {
        self.string@.len() / (self.char_len as nat)
    }
}

/// The escape byte that opens every control sequence.
pub const ESC: u8 = 0x1b;

/// The sequence that moves the cursor to row 1, column 1.
pub open spec fn home_seq() -> Seq<u8> {
    seq![ESC, 0x5b, 0x31, 0x3b, 0x31, 0x48]
}

/// The decimal digits of `n`, in ASCII.
pub open spec fn decimal(n: nat) -> Seq<u8>
    decreases n,
{
    if n < 10 {
        seq![(0x30 + n) as u8]
    } else {
        decimal(n / 10).push((0x30 + n % 10) as u8)
    }
}

/// The 24-bit foreground color sequence `ESC [ 38 ; 2 ; R ; G ; B m`.
pub open spec fn color_seq(c: (u8, u8, u8)) -> Seq<u8> {
    seq![ESC, 0x5b, 0x33, 0x38, 0x3b, 0x32, 0x3b] + decimal(c.0 as nat) + seq![0x3bu8]
        + decimal(c.1 as nat) + seq![0x3bu8] + decimal(c.2 as nat) + seq![0x6du8]
}

/// The color of cell `i`.
pub open spec fn color_at(rgb: Seq<u8>, i: int) -> (u8, u8, u8) {
    (rgb[3 * i], rgb[3 * i + 1], rgb[3 * i + 2])
}

/// Cell `i` opens a run: it is the first cell, or its color differs from
/// the cell before it.
pub open spec fn opens_run(rgb: Seq<u8>, i: int) -> bool {
    i == 0 || color_at(rgb, i) != color_at(rgb, i - 1)
}

/// The bytes of cell `i`.
pub open spec fn cell(cells: Seq<u8>, w: nat, i: int) -> Seq<u8> {
    cells.subrange(i * w, (i + 1) * w)
}

/// The first `n` cells with one color sequence in front of each run.
pub open spec fn colored_cells(cells: Seq<u8>, rgb: Seq<u8>, w: nat, n: nat) -> Seq<u8>
    decreases n,
{
    if n == 0 {
        Seq::empty()
    } else {
        let i = n - 1;
        colored_cells(cells, rgb, w, (n - 1) as nat) + (if opens_run(rgb, i) {
            color_seq(color_at(rgb, i))
        } else {
            Seq::empty()
        }) + cell(cells, w, i)
    }
}

/// The bytes written for one frame: the cursor goes home, then a grayscale
/// frame's cells follow verbatim and a color frame's cells follow with one
/// color sequence per run of equal colors.
pub open spec fn frame_output(f: StringInfo) -> Seq<u8> {
    if f.rgb@.len() == 0 {
        home_seq() + f.string@
    } else {
        home_seq() + colored_cells(f.string@, f.rgb@, f.char_len as nat, f.cells())
    }
}

/// Relies on termion's `From<Goto> for String`: `Goto(1, 1)` becomes
/// `ESC [ 1 ; 1 H`.
#[verifier::external_body]
fn cursor_home() -> (r: Vec<u8>)
    ensures
        r@ == home_seq(),
{
    String::from(termion::cursor::Goto(1, 1)).into_bytes()
}

fn push_decimal(out: &mut Vec<u8>, n: u8)
    ensures
        final(out)@ == old(out)@ + decimal(n as nat),
{
    proof {
        reveal_with_fuel(decimal, 3);
    }
    if n >= 100 {
        out.push(0x30 + n / 100);
    }
    if n >= 10 {
        out.push(0x30 + (n / 10) % 10);
    }
    out.push(0x30 + n % 10);
    proof {
        if n >= 100 {
            assert(decimal(n as nat / 10) == seq![(0x30 + n / 100) as u8, (0x30 + (n / 10) % 10) as u8]);
        }
        assert(final(out)@ == old(out)@ + decimal(n as nat));
    }
}

fn push_color(out: &mut Vec<u8>, r: u8, g: u8, b: u8)
    ensures
        final(out)@ == old(out)@ + color_seq((r, g, b)),
{
    out.push(ESC);
    out.push(0x5b);
    out.push(0x33);
    out.push(0x38);
    out.push(0x3b);
    out.push(0x32);
    out.push(0x3b);
    push_decimal(out, r);
    out.push(0x3b);
    push_decimal(out, g);
    out.push(0x3b);
    push_decimal(out, b);
    out.push(0x6d);
    assert(out@ == old(out)@ + color_seq((r, g, b)));
}

fn push_range(out: &mut Vec<u8>, src: &Vec<u8>, from: usize, to: usize)
    requires
        from <= to <= src@.len(),
    ensures
        final(out)@ == old(out)@ + src@.subrange(from as int, to as int),
{
    let mut k = from;
    while k < to
        invariant
            from <= k <= to <= src@.len(),
            out@ == old(out)@ + src@.subrange(from as int, k as int),
        decreases to - k,
    {
        out.push(src[k]);
        k = k + 1;
        assert(out@ == old(out)@ + src@.subrange(from as int, k as int));
    }
}

/// The encoding of the first `m` cells is a prefix of the encoding of the
/// first `n`, for `m <= n`.
pub proof fn lemma_colored_prefix(cells: Seq<u8>, rgb: Seq<u8>, w: nat, m: nat, n: nat)
    requires
        m <= n,
    ensures
        colored_cells(cells, rgb, w, n).subrange(0, colored_cells(cells, rgb, w, m).len() as int)
            == colored_cells(cells, rgb, w, m),
        colored_cells(cells, rgb, w, m).len() <= colored_cells(cells, rgb, w, n).len(),
    decreases n,
{
    if m < n {
        lemma_colored_prefix(cells, rgb, w, m, (n - 1) as nat);
        let prev = colored_cells(cells, rgb, w, (n - 1) as nat);
        let lm = colored_cells(cells, rgb, w, m).len() as int;
        assert(colored_cells(cells, rgb, w, n).subrange(0, lm) == prev.subrange(0, lm));
    } else {
        assert(colored_cells(cells, rgb, w, n).subrange(0, colored_cells(cells, rgb, w, n).len() as int)
            == colored_cells(cells, rgb, w, n));
    }
}

/// A frame whose cells all share one color is written with a single color
/// sequence: cursor home, that color, then the cells verbatim.
pub proof fn lemma_uniform_color_single_sequence(f: StringInfo)
    requires
        f.wf(),
        f.cells() >= 1,
        f.rgb@.len() > 0,
        forall|i: int| 0 <= i < f.cells() ==> #[trigger] color_at(f.rgb@, i) == color_at(f.rgb@, 0),
    ensures
        frame_output(f) == home_seq() + color_seq(color_at(f.rgb@, 0)) + f.string@,
        run_count(f.rgb@, f.cells()) == 1,
{
    lemma_uniform_run_count(f.rgb@, f.cells(), f.cells());
    let w = f.char_len as nat;
    let n = f.cells();
    vstd::arithmetic::div_mod::lemma_fundamental_div_mod(f.string@.len() as int, w as int);
    assert(n * w == f.string@.len()) by (nonlinear_arith)
        requires f.string@.len() == w * n + 0;
    lemma_uniform_runs(f.string@, f.rgb@, w, n, n);
    assert(f.string@.subrange(0, (n * w) as int) == f.string@);
}

proof fn lemma_uniform_run_count(rgb: Seq<u8>, n: nat, total: nat)
    requires
        1 <= n <= total,
        forall|i: int| 0 <= i < total ==> #[trigger] color_at(rgb, i) == color_at(rgb, 0),
    ensures
        run_count(rgb, n) == 1,
    decreases n,
{
    if n > 1 {
        lemma_uniform_run_count(rgb, (n - 1) as nat, total);
        assert(color_at(rgb, n - 1) == color_at(rgb, n - 2));
    } else {
        assert(run_count(rgb, 0) == 0);
    }
}

proof fn lemma_uniform_runs(cells: Seq<u8>, rgb: Seq<u8>, w: nat, n: nat, total: nat)
    requires
        1 <= n <= total,
        total * w <= cells.len(),
        forall|i: int| 0 <= i < total ==> #[trigger] color_at(rgb, i) == color_at(rgb, 0),
    ensures
        colored_cells(cells, rgb, w, n) == color_seq(color_at(rgb, 0)) + cells.subrange(0, (n * w) as int),
    decreases n,
{
    let i = n - 1;
    assert(n * w <= total * w) by (nonlinear_arith)
        requires n <= total;
    assert(colored_cells(cells, rgb, w, n) == colored_cells(cells, rgb, w, (n - 1) as nat)
        + (if opens_run(rgb, i) { color_seq(color_at(rgb, i)) } else { Seq::empty() })
        + cell(cells, w, i));
    if n == 1 {
        assert(colored_cells(cells, rgb, w, 0) == Seq::<u8>::empty());
        assert(cells.subrange(0, (1 * w) as int) == cell(cells, w, 0));
    } else {
        lemma_uniform_runs(cells, rgb, w, (n - 1) as nat, total);
        assert(color_at(rgb, i) == color_at(rgb, i - 1));
        assert(!opens_run(rgb, i));
        assert((n - 1) * w + w == n * w) by (nonlinear_arith);
        assert(0 <= (n - 1) * w) by (nonlinear_arith)
            requires n >= 1;
        assert(cells.subrange(0, (n * w) as int) == cells.subrange(0, ((n - 1) * w) as int) + cell(cells, w, i));
    }
}

/// The color of a frame's first run is always written, whatever frame came
/// before: two color frames with the same colors both open with the cursor
/// sequence and the first cell's color sequence.
pub proof fn lemma_color_state_resets_each_frame(a: StringInfo, b: StringInfo)
    requires
        a.wf(),
        b.wf(),
        a.rgb@.len() > 0,
        a.rgb@ == b.rgb@,
    ensures
        frame_output(a).subrange(0, (home_seq().len() + color_seq(color_at(a.rgb@, 0)).len()) as int)
            == home_seq() + color_seq(color_at(a.rgb@, 0)),
        frame_output(b).subrange(0, (home_seq().len() + color_seq(color_at(b.rgb@, 0)).len()) as int)
            == home_seq() + color_seq(color_at(b.rgb@, 0)),
{
    lemma_frame_opens_with_first_color(a);
    lemma_frame_opens_with_first_color(b);
}

proof fn lemma_frame_opens_with_first_color(f: StringInfo)
    requires
        f.wf(),
        f.rgb@.len() > 0,
    ensures
        frame_output(f).subrange(0, (home_seq().len() + color_seq(color_at(f.rgb@, 0)).len()) as int)
            == home_seq() + color_seq(color_at(f.rgb@, 0)),
{
    let w = f.char_len as nat;
    let n = f.cells();
    let c = color_seq(color_at(f.rgb@, 0));
    assert(n >= 1);
    lemma_colored_prefix(f.string@, f.rgb@, w, 1, n);
    assert(colored_cells(f.string@, f.rgb@, w, 0) == Seq::<u8>::empty());
    let one = colored_cells(f.string@, f.rgb@, w, 1);
    assert(one == c + cell(f.string@, w, 0));
    let all = colored_cells(f.string@, f.rgb@, w, n);
    assert(all.subrange(0, c.len() as int) == one.subrange(0, c.len() as int));
    assert(one.subrange(0, c.len() as int) == c);
    let out = frame_output(f);
    assert(out == home_seq() + all);
    assert(out.subrange(0, (home_seq().len() + c.len()) as int) == home_seq() + all.subrange(0, c.len() as int));
}

/// A grayscale frame is written as the cursor sequence and its cells,
/// byte for byte, with no color sequence.
pub proof fn lemma_grayscale_verbatim(f: StringInfo)
    requires
        f.rgb@.len() == 0,
    ensures
        frame_output(f) == home_seq() + f.string@,
{
}

/// The number of escape bytes in `s`: each control sequence opens with one.
pub open spec fn esc_count(s: Seq<u8>) -> nat {
    s.filter(|b: u8| b == ESC).len()
}

/// The number of runs of equal colors among the first `n` cells.
pub open spec fn run_count(rgb: Seq<u8>, n: nat) -> nat
    decreases n,
{
    if n == 0 {
        0
    } else {
        run_count(rgb, (n - 1) as nat) + if opens_run(rgb, n - 1) { 1nat } else { 0nat }
    }
}

proof fn lemma_esc_free(s: Seq<u8>)
    requires
        forall|i: int| 0 <= i < s.len() ==> s[i] != ESC,
    ensures
        esc_count(s) == 0,
    decreases s.len(),
{
    reveal(Seq::filter);
    if s.len() > 0 {
        lemma_esc_free(s.drop_last());
    }
}

proof fn lemma_esc_count_add(a: Seq<u8>, b: Seq<u8>)
    ensures
        esc_count(a + b) == esc_count(a) + esc_count(b),
{
    Seq::filter_distributes_over_add(a, b, |x: u8| x == ESC);
}

proof fn lemma_decimal_digits(n: nat)
    ensures
        forall|i: int| 0 <= i < decimal(n).len() ==> 0x30 <= #[trigger] decimal(n)[i] <= 0x39,
    decreases n,
{
    if n >= 10 {
        lemma_decimal_digits(n / 10);
        let prev = decimal(n / 10);
        assert(decimal(n) == prev.push((0x30 + n % 10) as u8));
        assert forall|i: int| 0 <= i < decimal(n).len() implies 0x30 <= #[trigger] decimal(n)[i] <= 0x39 by {
            if i < prev.len() {
                assert(decimal(n)[i] == prev[i]);
            }
        }
    }
}

proof fn lemma_color_seq_one_esc(c: (u8, u8, u8))
    ensures
        esc_count(color_seq(c)) == 1,
{
    let head = seq![ESC];
    let tail = seq![0x5bu8, 0x33, 0x38, 0x3b, 0x32, 0x3b] + decimal(c.0 as nat) + seq![0x3bu8]
        + decimal(c.1 as nat) + seq![0x3bu8] + decimal(c.2 as nat) + seq![0x6du8];
    assert(color_seq(c) == head + tail);
    lemma_decimal_digits(c.0 as nat);
    lemma_decimal_digits(c.1 as nat);
    lemma_decimal_digits(c.2 as nat);
    lemma_esc_free(tail);
    lemma_esc_count_add(head, tail);
    reveal_with_fuel(Seq::filter, 2);
    assert(head.drop_last() == Seq::<u8>::empty());
}

/// Where no cell byte is an escape byte, the first `n` cells carry exactly
/// one escape per run of equal colors.
pub proof fn lemma_one_sequence_per_run(cells: Seq<u8>, rgb: Seq<u8>, w: nat, n: nat)
    requires
        n * w <= cells.len(),
        forall|i: int| 0 <= i < cells.len() ==> cells[i] != ESC,
    ensures
        esc_count(colored_cells(cells, rgb, w, n)) == run_count(rgb, n),
    decreases n,
{
    if n == 0 {
        lemma_esc_free(Seq::<u8>::empty());
    } else {
        let i = n - 1;
        assert((n - 1) * w <= n * w) by (nonlinear_arith);
        assert(0 <= i * w) by (nonlinear_arith)
            requires i >= 0;
        assert(i * w + w == n * w) by (nonlinear_arith)
            requires i == n - 1;
        lemma_one_sequence_per_run(cells, rgb, w, (n - 1) as nat);
        let prev = colored_cells(cells, rgb, w, (n - 1) as nat);
        let mark = if opens_run(rgb, i) { color_seq(color_at(rgb, i)) } else { Seq::empty() };
        let c = cell(cells, w, i);
        lemma_esc_free(c);
        if opens_run(rgb, i) {
            lemma_color_seq_one_esc(color_at(rgb, i));
        } else {
            lemma_esc_free(mark);
        }
        lemma_esc_count_add(prev, mark);
        lemma_esc_count_add(prev + mark, c);
    }
}

/// A color frame whose cells hold no escape byte is written with one escape
/// for the cursor and one per run of equal colors: the output grows with
/// the number of color changes, not with the frame's area.
pub proof fn lemma_frame_escapes(f: StringInfo)
    requires
        f.wf(),
        f.rgb@.len() > 0,
        forall|i: int| 0 <= i < f.string@.len() ==> f.string@[i] != ESC,
    ensures
        esc_count(frame_output(f)) == 1 + run_count(f.rgb@, f.cells()),
{
    let w = f.char_len as nat;
    let n = f.cells();
    vstd::arithmetic::div_mod::lemma_fundamental_div_mod(f.string@.len() as int, w as int);
    assert(n * w == f.string@.len()) by (nonlinear_arith)
        requires f.string@.len() == w * n + 0;
    lemma_one_sequence_per_run(f.string@, f.rgb@, w, n);
    lemma_esc_count_add(home_seq(), colored_cells(f.string@, f.rgb@, w, n));
    let tail = home_seq().drop_first();
    assert(home_seq() == seq![ESC] + tail);
    lemma_esc_free(tail);
    lemma_esc_count_add(seq![ESC], tail);
    reveal_with_fuel(Seq::filter, 2);
    assert(seq![ESC].drop_last() == Seq::<u8>::empty());
}

/// Only a shutdown ends the renderer.
pub open spec fn stops_renderer(event: LoopEvent) -> bool {
    event is Shutdown
}

/// Whether a command waiting for the renderer ends it: only a shutdown does;
/// the renderer leaves play-pause and seeks to the scheduler.
pub fn renderer_stops(event: LoopEvent) -> (r: bool)
    ensures
        r == stops_renderer(event),
{
    match event {
        LoopEvent::Shutdown => true,
        _ => false,
    }
}

proof fn lemma_cell_bounds(i: int, n: int, w: int)
    requires
        0 <= i < n,
        w > 0,
    ensures
        0 <= i * w,
        i * w <= n * w,
        i * w + w == (i + 1) * w,
        (i + 1) * w <= n * w,
{
    assert((i + 1) * w <= n * w) by (nonlinear_arith)
        requires i < n, w > 0;
    assert(i * w + w == (i + 1) * w) by (nonlinear_arith);
    assert(0 <= i * w) by (nonlinear_arith)
        requires 0 <= i, w > 0;
    assert(i * w <= n * w) by (nonlinear_arith)
        requires i < n, w > 0;
}

/// Encodes a frame as the bytes to write to the terminal: cursor home, then
/// the cells, with a color sequence wherever a run of equal colors begins.
/// No color carries over from an earlier frame.
pub fn encode_frame(frame: &StringInfo) -> (r: Vec<u8>)
    requires
        frame.wf(),
    ensures
        r@ == frame_output(*frame),
{
    let mut out = cursor_home();
    if frame.rgb.len() == 0 {
        push_range(&mut out, &frame.string, 0, frame.string.len());
        assert(frame.string@.subrange(0, frame.string@.len() as int) == frame.string@);
        return out;
    }
    let w = frame.char_len as usize;
    let n = frame.string.len() / w;
    let ghost cells = frame.string@;
    let ghost rgb = frame.rgb@;
    proof {
        vstd::arithmetic::div_mod::lemma_fundamental_div_mod(cells.len() as int, w as int);
        assert(n * w == cells.len()) by (nonlinear_arith)
            requires cells.len() == w * n + 0;
    }
    let rl = frame.rgb.len();
    let sl = frame.string.len();
    let mut current: Option<(u8, u8, u8)> = None;
    let mut run_start: usize = 0;
    let mut i: usize = 0;
    while i < n
        invariant
            frame.wf(),
            cells == frame.string@,
            rgb == frame.rgb@,
            rgb.len() == 3 * n,
            rl == rgb.len(),
            sl == cells.len(),
            run_start * w <= i * w <= cells.len(),
            w == frame.char_len,
            w > 0,
            n * w == cells.len(),
            i <= n,
            run_start <= i,
            i == 0 ==> current is None,
            i > 0 ==> current == Some(color_at(rgb, i - 1)),
            out@ + cells.subrange(run_start * w, i * w) == home_seq() + colored_cells(cells, rgb, w as nat, i as nat),
        decreases n - i,
    {
        proof {
            lemma_cell_bounds(i as int, n as int, w as int);
            lemma_cell_bounds(run_start as int, n as int, w as int);
        }
        let color = (frame.rgb[3 * i], frame.rgb[3 * i + 1], frame.rgb[3 * i + 2]);
        let ghost pending = cells.subrange(run_start * w, i * w);
        let ghost prefix = home_seq() + colored_cells(cells, rgb, w as nat, i as nat);
        let changed = match current {
            None => true,
            Some(c) => c.0 != color.0 || c.1 != color.1 || c.2 != color.2,
        };
        assert(changed == opens_run(rgb, i as int));
        if changed {
            push_range(&mut out, &frame.string, run_start * w, i * w);
            push_color(&mut out, color.0, color.1, color.2);
            run_start = i;
            current = Some(color);
            assert(out@ == prefix + color_seq(color_at(rgb, i as int)));
        }
        proof {
            assert(cells.subrange(run_start * w, (i + 1) * w) == cells.subrange(run_start * w, i * w)
                + cell(cells, w as nat, i as int));
            assert(colored_cells(cells, rgb, w as nat, (i + 1) as nat) == colored_cells(cells, rgb, w as nat, i as nat)
                + (if opens_run(rgb, i as int) { color_seq(color_at(rgb, i as int)) } else { Seq::empty() })
                + cell(cells, w as nat, i as int));
            if !changed {
                assert(out@ + cells.subrange(run_start * w, (i + 1) * w) == prefix + cell(cells, w as nat, i as int));
            }
        }
        i = i + 1;
    }
    push_range(&mut out, &frame.string, run_start * w, n * w);
    out
}

} // verus!
