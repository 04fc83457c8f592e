//! The layout engine: positions a mutable character buffer as glyph
//! instances, wrapping lines greedily at the last whitespace and applying
//! backspace control codes embedded in the buffer.
//!
//! The pass is specified by a fold (`placed`) over the buffer: for each code
//! it records the pen position, advances the pen by the glyph advance plus
//! the kerning toward the next code, and on crossing the box width moves the
//! tail of the line down one slot. The executable engine is proved equal to
//! that fold, so every contract below pins the exact output.

use vstd::prelude::*;

use crate::atlas::Atlas;
use crate::command::{char_to_index_checked, decode_text, is_whitespace, is_ws, text_command,
    TextCommand, BACKSPACE_CODE, NUM_ASCII_CHARS};
use crate::geom::{views, IntPos, Pos};
use crate::glyph::{FixedVector, PixelBox, MAX_ADVANCE};

verus! {

/// Documented cap on the editable buffer: the caller reserves capacity for
/// at most this many character codes, and layout is linear per pass.
pub const MAX_TEXT_LEN: usize = 1000;

/// Largest accepted magnitude for the layout start position and box width,
/// in pixels. Keeps pen arithmetic inside `i64` for any buffer under
/// [`MAX_TEXT_LEN`].
pub const MAX_COORD: i64 = 0x2000_0000_0000;

/// Largest pen move per character in pixels: one advance plus one kerning
/// adjustment, each at most `MAX_ADVANCE / 64`.
pub const PEN_STEP: i64 = 0x8000;

/// How far any recorded x coordinate can drift from the start position over
/// one pass (wrap shifts compound at most once per character).
pub const X_SPAN: i64 = 0x10_0000_0000;

/// How far any recorded y coordinate can drift down from the start
/// position over one pass.
pub const Y_SPAN: i64 = 0x80_0000;

/// One positioned glyph handed to the renderer: a screen position for the
/// glyph's ink box and the atlas slot to sample.
#[derive(Clone, Copy, Debug, PartialEq, Eq, Structural)]
pub struct GlyphInstance {
    pub position: Pos,
    pub atlas_slot: u64,
}

/// The mathematical counterpart of `GlyphInstance`.
pub struct IntInstance {
    pub pos: IntPos,
    pub slot: int,
}

impl View for GlyphInstance {
    type V = IntInstance;

    open spec fn view(&self) -> IntInstance {
        IntInstance { pos: self.position@, slot: self.atlas_slot as int }
    }
}

/// The pointwise view of an instance vector.
pub open spec fn inst_views(s: Seq<GlyphInstance>) -> Seq<IntInstance> {
    Seq::new(s.len(), |i: int| s[i]@)
}

/// One kerning pair: the adjustment applied between the ordered glyph pair
/// `(left, right)`, in 1/64 sub-pixel units.
#[derive(Clone, Copy, Debug, PartialEq, Eq, Structural)]
pub struct KernEntry {
    pub left: usize,
    pub right: usize,
    pub adjust: FixedVector,
}

/// The kerning capability as data: a pair that appears in no entry kerns by
/// zero, which is never an error.
pub struct KerningTable {
    pub entries: Vec<KernEntry>,
}

/// The adjustment vector for an ordered glyph pair: the first matching
/// entry, or zero when the table has none.
pub open spec fn kern_vec(entries: Seq<KernEntry>, left: int, right: int) -> FixedVector
    decreases entries.len(),
{
    if entries.len() == 0 {
        FixedVector { x: 0, y: 0 }
    } else if entries[0].left == left && entries[0].right == right {
        entries[0].adjust
    } else {
        kern_vec(entries.drop_first(), left, right)
    }
}

impl KerningTable {
    /// Every adjustment is bounded like an advance.
    pub open spec fn wf(&self) -> bool {
        forall|i: int|
            0 <= i < self.entries@.len() ==> {
                &&& -MAX_ADVANCE <= (#[trigger] self.entries@[i]).adjust.x <= MAX_ADVANCE
                &&& -MAX_ADVANCE <= self.entries@[i].adjust.y <= MAX_ADVANCE
            }
    }

    /// A table with no kerning data: every pair adjusts by zero.
    pub fn new() -> (r: KerningTable)
        ensures
            r.wf(),
            r.entries@.len() == 0,
    {
        KerningTable { entries: Vec::new() }
    }

    /// Adds one kerning pair. Earlier entries take precedence.
    pub fn push(&mut self, entry: KernEntry)
        requires
            old(self).wf(),
            -MAX_ADVANCE <= entry.adjust.x <= MAX_ADVANCE,
            -MAX_ADVANCE <= entry.adjust.y <= MAX_ADVANCE,
        ensures
            final(self).wf(),
            final(self).entries@ == old(self).entries@.push(entry),
    {
        self.entries.push(entry);
    }

    /// Looks the ordered glyph pair up: the first matching entry's
    /// adjustment, or zero without one.
    pub fn lookup(&self, left: usize, right: usize) -> (r: FixedVector)
        requires
            self.wf(),
        ensures
            r == kern_vec(self.entries@, left as int, right as int),
            -MAX_ADVANCE <= r.x <= MAX_ADVANCE,
    {
        let n = self.entries.len();
        proof {
            assert(self.entries@.skip(0) =~= self.entries@);
        }
        for i in 0..n
            invariant
                n == self.entries@.len(),
                self.wf(),
                kern_vec(self.entries@, left as int, right as int) == kern_vec(
                    self.entries@.skip(i as int),
                    left as int,
                    right as int,
                ),
        {
            proof {
                assert(self.entries@.skip(i as int)[0] == self.entries@[i as int]);
                assert(self.entries@.skip(i as int).drop_first() =~= self.entries@.skip(i + 1));
            }
            let e = &self.entries[i];
            if e.left == left && e.right == right {
                return e.adjust;
            }
        }
        FixedVector { x: 0, y: 0 }
    }
}

/// What one positioning pass reads: the start pen, the wrap box width, the
/// slot height that lines step down by, and the metric tables.
pub struct LayoutEnv {
    pub start: IntPos,
    pub box_width: int,
    pub slot_h: int,
    pub advances: Seq<FixedVector>,
    pub kern: Seq<KernEntry>,
}

/// The environment the executable engine reads from its arguments.
pub open spec fn env_of(atlas: Atlas, kerning: KerningTable, start: IntPos, box_width: int) -> LayoutEnv {
    LayoutEnv {
        start,
        box_width,
        slot_h: atlas.max_height as int,
        advances: atlas.advances@,
        kern: kerning.entries@,
    }
}

/// A usable environment: the advance table covers the printable range and
/// every metric is bounded.
pub open spec fn env_wf(env: LayoutEnv) -> bool {
    &&& env.advances.len() == NUM_ASCII_CHARS
    &&& forall|g: int|
        0 <= g < env.advances.len() ==> 0 <= (#[trigger] env.advances[g]).x <= MAX_ADVANCE
    &&& forall|k: int|
        0 <= k < env.kern.len() ==> -MAX_ADVANCE <= (#[trigger] env.kern[k]).adjust.x
            <= MAX_ADVANCE
    &&& 1 <= env.slot_h <= 0x800
    &&& -MAX_COORD <= env.start.x <= MAX_COORD
    &&& -MAX_COORD <= env.start.y <= MAX_COORD
    &&& -MAX_COORD <= env.box_width <= MAX_COORD
}

/// The pen advance of glyph `g` in pixels.
pub open spec fn px_advance(env: LayoutEnv, g: int) -> int {
    env.advances[g].x / 64
}

/// The kerning adjustment between glyphs `l` and `r` in pixels.
pub open spec fn kern_px(env: LayoutEnv, l: int, r: int) -> int {
    kern_vec(env.kern, l, r).x / 64
}

/// The glyph index a code contributes as the right half of a kerning pair:
/// its table index, or glyph zero for a code with none.
pub open spec fn kern_right(code: u8) -> int {
    if 32 <= code && code < 128 {
        code - 32
    } else {
        0
    }
}

/// The largest whitespace index below `i`, or -1 without one.
pub open spec fn rfind_ws(codes: Seq<u8>, i: int) -> int
    decreases i,
{
    if i <= 0 {
        -1
    } else if is_ws(codes[i - 1]) {
        i - 1
    } else {
        rfind_ws(codes, i - 1)
    }
}

/// Where the run moved to a fresh line starts when a wrap triggers at `i`:
/// just after the nearest preceding whitespace, or `i` itself without one.
pub open spec fn wrap_from(codes: Seq<u8>, i: int) -> int {
    if rfind_ws(codes, i) >= 0 {
        rfind_ws(codes, i) + 1
    } else {
        i
    }
}

/// Ghost state of the positioning pass over some prefix of the buffer: one
/// recorded position and one removal mark per processed code, plus the pen.
pub struct LayoutState {
    pub ps: Seq<IntPos>,
    pub rm: Seq<bool>,
    pub pen: IntPos,
}

/// The state before any code is processed.
pub open spec fn start_state(env: LayoutEnv) -> LayoutState {
    LayoutState { ps: Seq::empty(), rm: Seq::empty(), pen: env.start }
}

/// Processes a printable code at index `i`: records the pre-advance pen
/// position, advances the pen by the glyph advance plus the kerning toward
/// the next code, and on meeting the box width moves the tail of the line
/// (from the wrap point through `i`) one slot down and back to the line
/// start; with no usable wrap point only code `i` starts the fresh line.
/// A whitespace code never starts a line itself: it may end its line past
/// the box width, and the first character of the following word then
/// wraps, finding that whitespace as its wrap point.
pub open spec fn place_char(
    st: LayoutState,
    codes: Seq<u8>,
    env: LayoutEnv,
    i: int,
    g: int,
) -> LayoutState {
    let pos0 = st.pen;
    let ka = if i + 1 < codes.len() {
        kern_px(env, g, kern_right(codes[i + 1]))
    } else {
        0
    };
    let penx = pos0.x + px_advance(env, g) + ka;
    let ps1 = st.ps.push(pos0);
    let rm1 = st.rm.push(false);
    if penx - env.start.x >= env.box_width && !is_ws(codes[i]) {
        let from = wrap_from(codes, i);
        let diff = ps1[from].x - env.start.x;
        let ps2 = if diff <= 0 {
            ps1.update(i, IntPos { x: env.start.x, y: ps1[i].y - env.slot_h })
        } else {
            Seq::new(
                ps1.len(),
                |j: int|
                    if from <= j && j <= i {
                        IntPos { x: ps1[j].x - diff, y: ps1[j].y - env.slot_h }
                    } else {
                        ps1[j]
                    },
            )
        };
        LayoutState {
            ps: ps2,
            rm: rm1,
            pen: IntPos { x: ps2[i].x + px_advance(env, g), y: pos0.y - env.slot_h },
        }
    } else {
        LayoutState { ps: ps1, rm: rm1, pen: IntPos { x: penx, y: pos0.y } }
    }
}

/// Processes the code at index `i`. A backspace marks itself and the code
/// before it for removal and resets the pen to that code's position; a
/// newline records its position and then sends the pen to the line start
/// one slot down; an unrecognized code records a zero-width placeholder at
/// the pen and has no other effect.
pub open spec fn layout_step(st: LayoutState, codes: Seq<u8>, env: LayoutEnv, i: int) -> LayoutState {
    match text_command(codes[i]) {
        TextCommand::Char(g) => place_char(st, codes, env, i, g as int),
        TextCommand::Backspace => if i > 0 {
            LayoutState {
                ps: st.ps.push(st.ps[i - 1]),
                rm: st.rm.update(i - 1, true).push(true),
                pen: st.ps[i - 1],
            }
        } else {
            LayoutState { ps: st.ps.push(st.pen), rm: st.rm.push(true), pen: st.pen }
        },
        TextCommand::Newline => LayoutState {
            ps: st.ps.push(st.pen),
            rm: st.rm.push(false),
            pen: IntPos { x: env.start.x, y: st.pen.y - env.slot_h },
        },
        TextCommand::Unknown => LayoutState {
            ps: st.ps.push(st.pen),
            rm: st.rm.push(false),
            pen: st.pen,
        },
    }
}

/// The state after the first `n` codes of the buffer.
pub open spec fn placed(codes: Seq<u8>, env: LayoutEnv, n: int) -> LayoutState
    decreases n,
{
    if n <= 0 {
        start_state(env)
    } else {
        layout_step(placed(codes, env, n - 1), codes, env, n - 1)
    }
}

/// The elements of `s` whose removal mark is clear, in order.
pub open spec fn keep_seq<T>(s: Seq<T>, rm: Seq<bool>) -> Seq<T>
    decreases s.len(),
{
    if s.len() == 0 {
        Seq::empty()
    } else if rm[s.len() - 1] {
        keep_seq(s.drop_last(), rm.drop_last())
    } else {
        keep_seq(s.drop_last(), rm.drop_last()).push(s.last())
    }
}

/// The instance emitted for a position: the glyph's ink box corner (the
/// recorded pen position offset by the bounding box minimum) and its slot.
pub open spec fn instance_of(p: IntPos, cboxes: Seq<PixelBox>, g: int) -> IntInstance {
    IntInstance { pos: IntPos { x: p.x + cboxes[g].x_min, y: p.y + cboxes[g].y_min }, slot: g }
}

/// The instances emitted for the first `n` codes of a cleaned buffer: one
/// per printable code, and the blank glyph (slot zero) for a newline so a
/// placeholder cell still renders; nothing for other codes.
pub open spec fn instances(
    codes: Seq<u8>,
    ps: Seq<IntPos>,
    cboxes: Seq<PixelBox>,
    n: int,
) -> Seq<IntInstance>
    decreases n,
{
    if n <= 0 {
        Seq::empty()
    } else {
        let rest = instances(codes, ps, cboxes, n - 1);
        match text_command(codes[n - 1]) {
            TextCommand::Char(g) => rest.push(instance_of(ps[n - 1], cboxes, g as int)),
            TextCommand::Newline => rest.push(instance_of(ps[n - 1], cboxes, 0)),
            _ => rest,
        }
    }
}

/// Coordinate bounds that hold of every recorded position and the pen
/// after `n` codes: x drifts up by at most one pen step per code and down
/// by at most one accumulated line width per wrap; y only moves down, at
/// most two slots per code.
pub open spec fn coord_ok(p: IntPos, env: LayoutEnv, n: int) -> bool {
    &&& env.start.x - n * n * PEN_STEP - n * PEN_STEP <= p.x <= env.start.x + n * PEN_STEP
    &&& env.start.y - 2 * n * env.slot_h <= p.y <= env.start.y
}

/// After any prefix, the pass state has one position and one mark per code
/// and every coordinate stays within the spans above.
pub proof fn lemma_placed_ok(codes: Seq<u8>, env: LayoutEnv, n: int)
    requires
        env_wf(env),
        0 <= n <= codes.len(),
        codes.len() <= MAX_TEXT_LEN,
    ensures
        placed(codes, env, n).ps.len() == n,
        placed(codes, env, n).rm.len() == n,
        forall|j: int| 0 <= j < n ==> coord_ok(#[trigger] placed(codes, env, n).ps[j], env, n),
        coord_ok(placed(codes, env, n).pen, env, n),
        forall|j: int|
            0 <= j < n ==> {
                &&& env.start.x - X_SPAN <= (#[trigger] placed(codes, env, n).ps[j]).x
                    <= env.start.x + X_SPAN
                &&& env.start.y - Y_SPAN <= placed(codes, env, n).ps[j].y <= env.start.y
            },
        env.start.x - X_SPAN <= placed(codes, env, n).pen.x <= env.start.x + X_SPAN,
        env.start.y - Y_SPAN <= placed(codes, env, n).pen.y <= env.start.y,
    decreases n,
{
    assert(n * n * PEN_STEP + n * PEN_STEP <= X_SPAN && 2 * n * env.slot_h <= Y_SPAN)
        by (nonlinear_arith)
        requires
            0 <= n <= 1000,
            1 <= env.slot_h <= 0x800,
    ;
    if n > 0 {
        lemma_placed_ok(codes, env, n - 1);
        let st = placed(codes, env, n - 1);
        let st2 = placed(codes, env, n);
        let i = n - 1;
        assert((n - 1) * (n - 1) * PEN_STEP <= n * n * PEN_STEP - PEN_STEP && (n - 1) * PEN_STEP
            <= n * PEN_STEP && 2 * (n - 1) * env.slot_h + env.slot_h <= 2 * n * env.slot_h && (n
            - 1) * (n - 1) * PEN_STEP + 2 * (n - 1) * PEN_STEP <= n * n * PEN_STEP && 0 <= n
            * PEN_STEP && 0 <= n * n * PEN_STEP) by (nonlinear_arith)
            requires
                1 <= n,
                1 <= env.slot_h,
        ;
        match text_command(codes[i]) {
            TextCommand::Char(g) => {
                let pos0 = st.pen;
                let ka = if i + 1 < codes.len() {
                    kern_px(env, g as int, kern_right(codes[i + 1]))
                } else {
                    0
                };
                assert(0 <= px_advance(env, g as int) <= PEN_STEP / 2) by {
                    assert(32 <= codes[i] < 128);
                    assert(0 <= env.advances[g as int].x <= MAX_ADVANCE);
                    assert(MAX_ADVANCE / 64 == PEN_STEP / 2);
                    vstd::arithmetic::div_mod::lemma_div_is_ordered(
                        0,
                        env.advances[g as int].x as int,
                        64,
                    );
                    vstd::arithmetic::div_mod::lemma_div_is_ordered(
                        env.advances[g as int].x as int,
                        MAX_ADVANCE as int,
                        64,
                    );
                }
                assert(-(PEN_STEP / 2) <= ka <= PEN_STEP / 2) by {
                    if i + 1 < codes.len() {
                        let kx = kern_vec(env.kern, g as int, kern_right(codes[i + 1])).x;
                        lemma_kern_vec_bounded(env.kern, g as int, kern_right(codes[i + 1]));
                        vstd::arithmetic::div_mod::lemma_div_is_ordered(
                            -(MAX_ADVANCE as int),
                            kx as int,
                            64,
                        );
                        vstd::arithmetic::div_mod::lemma_div_is_ordered(
                            kx as int,
                            MAX_ADVANCE as int,
                            64,
                        );
                        assert(-(MAX_ADVANCE as int) / 64 == -(PEN_STEP / 2));
                    }
                }
                let penx = pos0.x + px_advance(env, g as int) + ka;
                let ps1 = st.ps.push(pos0);
                assert(forall|j: int|
                    0 <= j < ps1.len() ==> coord_ok(#[trigger] ps1[j], env, n - 1));
                if penx - env.start.x >= env.box_width && !is_ws(codes[i]) {
                    let from = wrap_from(codes, i);
                    lemma_wrap_from_range(codes, i);
                    let diff = ps1[from].x - env.start.x;
                    assert(diff <= (n - 1) * PEN_STEP);
                    if diff <= 0 {
                        assert forall|j: int| 0 <= j < n implies coord_ok(
                            #[trigger] st2.ps[j],
                            env,
                            n,
                        ) by {
                            if j != i {
                                assert(st2.ps[j] == ps1[j]);
                            }
                        }
                        assert(st2.pen.x == env.start.x + px_advance(env, g as int));
                        assert(coord_ok(st2.pen, env, n));
                    } else {
                        assert forall|j: int| 0 <= j < n implies coord_ok(
                            #[trigger] st2.ps[j],
                            env,
                            n,
                        ) by {
                            if from <= j && j <= i {
                                assert(st2.ps[j].x == ps1[j].x - diff);
                                assert(st2.ps[j].x >= env.start.x - (n - 1) * (n - 1) * PEN_STEP
                                    - 2 * (n - 1) * PEN_STEP);
                            } else {
                                assert(st2.ps[j] == ps1[j]);
                            }
                        }
                        assert(st2.ps[i].x == ps1[i].x - diff);
                        assert(coord_ok(st2.pen, env, n));
                    }
                } else {
                    assert(st2.ps =~= ps1);
                    assert(coord_ok(st2.pen, env, n));
                }
            },
            TextCommand::Backspace => {
                if i > 0 {
                    assert(coord_ok(st.ps[i - 1], env, n - 1));
                }
            },
            TextCommand::Newline => {},
            TextCommand::Unknown => {},
        }
        assert forall|j: int| 0 <= j < n implies coord_ok(#[trigger] st2.ps[j], env, n) by {
            if j < n - 1 {
                match text_command(codes[i]) {
                    TextCommand::Char(_) => {},
                    _ => {
                        assert(st2.ps[j] == st.ps[j]);
                    },
                }
            }
        }
    }
}

/// Every element the removal pass keeps is an element of its input.
proof fn lemma_keep_entry<T>(s: Seq<T>, rm: Seq<bool>, k: int)
    requires
        s.len() == rm.len(),
        0 <= k < keep_seq(s, rm).len(),
    ensures
        exists|j: int| 0 <= j < s.len() && keep_seq(s, rm)[k] == s[j],
    decreases s.len(),
{
    if s.len() > 0 {
        if rm[s.len() - 1] {
            lemma_keep_entry(s.drop_last(), rm.drop_last(), k);
            let j = choose|j: int|
                0 <= j < s.drop_last().len() && keep_seq(s.drop_last(), rm.drop_last())[k]
                    == s.drop_last()[j];
            assert(keep_seq(s, rm)[k] == s[j]);
        } else {
            if k < keep_seq(s, rm).len() - 1 {
                lemma_keep_entry(s.drop_last(), rm.drop_last(), k);
                let j = choose|j: int|
                    0 <= j < s.drop_last().len() && keep_seq(s.drop_last(), rm.drop_last())[k]
                        == s.drop_last()[j];
                assert(keep_seq(s, rm)[k] == s[j]);
            } else {
                assert(keep_seq(s, rm)[k] == s[s.len() - 1]);
            }
        }
    }
}

/// Every kerning adjustment the table can return is bounded like an
/// advance (zero included).
pub proof fn lemma_kern_vec_bounded(entries: Seq<KernEntry>, l: int, r: int)
    requires
        forall|k: int|
            0 <= k < entries.len() ==> -MAX_ADVANCE <= (#[trigger] entries[k]).adjust.x
                <= MAX_ADVANCE,
    ensures
        -MAX_ADVANCE <= kern_vec(entries, l, r).x <= MAX_ADVANCE,
    decreases entries.len(),
{
    if entries.len() > 0 {
        if !(entries[0].left == l && entries[0].right == r) {
            lemma_kern_vec_bounded(entries.drop_first(), l, r);
        }
    }
}

/// The wrap point lies between the line data recorded so far: at most `i`,
/// and just past a whitespace index when one exists.
pub proof fn lemma_wrap_from_range(codes: Seq<u8>, i: int)
    requires
        0 <= i,
    ensures
        0 <= wrap_from(codes, i) <= i,
    decreases i,
{
    if i > 0 && !is_ws(codes[i - 1]) {
        lemma_wrap_from_range(codes, i - 1);
    }
}

/// A printable code processed without the wrap rule: the pen only ever
/// advances along its line.
pub open spec fn simple_place_char(
    st: LayoutState,
    codes: Seq<u8>,
    env: LayoutEnv,
    i: int,
    g: int,
) -> LayoutState {
    let pos0 = st.pen;
    let ka = if i + 1 < codes.len() {
        kern_px(env, g, kern_right(codes[i + 1]))
    } else {
        0
    };
    let penx = pos0.x + px_advance(env, g) + ka;
    LayoutState {
        ps: st.ps.push(pos0),
        rm: st.rm.push(false),
        pen: IntPos { x: penx, y: pos0.y },
    }
}

/// One step of the positioning pass with the wrap rule disabled; control
/// codes behave exactly as in the full pass.
pub open spec fn simple_step(st: LayoutState, codes: Seq<u8>, env: LayoutEnv, i: int) -> LayoutState {
    match text_command(codes[i]) {
        TextCommand::Char(g) => simple_place_char(st, codes, env, i, g as int),
        _ => layout_step(st, codes, env, i),
    }
}

/// The single-line layout of the first `n` codes: the pass with the wrap
/// rule disabled.
pub open spec fn simple_placed(codes: Seq<u8>, env: LayoutEnv, n: int) -> LayoutState
    decreases n,
{
    if n <= 0 {
        start_state(env)
    } else {
        simple_step(simple_placed(codes, env, n - 1), codes, env, n - 1)
    }
}

/// Whether the first `n` codes already fit within the box: laid out on a
/// single line, every printable non-whitespace code leaves the pen short
/// of the box width (whitespace is free to end a line at the box edge,
/// since it never starts a line itself).
pub open spec fn fits_one_line(codes: Seq<u8>, env: LayoutEnv, n: int) -> bool {
    forall|i: int|
        0 <= i < n && text_command(codes[i]) is Char && !is_ws(codes[i]) ==> (
        #[trigger] simple_placed(codes, env, i + 1)).pen.x - env.start.x < env.box_width
}

/// Wrap idempotence: laying out a buffer that already fits within the box
/// width gives exactly the single-line layout — the same positions, marks
/// and pen, with no spurious line break anywhere.
pub proof fn lemma_wrap_idempotent(codes: Seq<u8>, env: LayoutEnv, n: int)
    requires
        0 <= n <= codes.len(),
        fits_one_line(codes, env, n),
    ensures
        placed(codes, env, n) == simple_placed(codes, env, n),
    decreases n,
{
    if n > 0 {
        lemma_wrap_idempotent(codes, env, n - 1);
        match text_command(codes[n - 1]) {
            TextCommand::Char(g) => {
                if !is_ws(codes[n - 1]) {
                    assert(simple_placed(codes, env, n).pen.x - env.start.x < env.box_width);
                }
            },
            _ => {},
        }
    }
}

/// Which codes the removal pass drops: every backspace, and the code
/// standing right before one.
pub proof fn lemma_removal_marks(codes: Seq<u8>, env: LayoutEnv, n: int)
    requires
        0 <= n <= codes.len(),
    ensures
        placed(codes, env, n).rm.len() == n,
        forall|j: int|
            0 <= j < n ==> placed(codes, env, n).rm[j] == (text_command(codes[j]) is Backspace
                || (j + 1 < n && text_command(codes[j + 1]) is Backspace)),
    decreases n,
{
    if n > 0 {
        lemma_removal_marks(codes, env, n - 1);
        lemma_placed_len(codes, env, n - 1);
    }
}

/// The pass records one position and one mark per processed code.
pub proof fn lemma_placed_len(codes: Seq<u8>, env: LayoutEnv, n: int)
    requires
        0 <= n,
    ensures
        placed(codes, env, n).ps.len() == n,
        placed(codes, env, n).rm.len() == n,
    decreases n,
{
    if n > 0 {
        lemma_placed_len(codes, env, n - 1);
    }
}

/// Keeping with every mark clear returns the sequence unchanged.
pub proof fn lemma_keep_none<T>(s: Seq<T>, rm: Seq<bool>)
    requires
        s.len() == rm.len(),
        forall|j: int| 0 <= j < s.len() ==> !rm[j],
    ensures
        keep_seq(s, rm) == s,
    decreases s.len(),
{
    if s.len() > 0 {
        lemma_keep_none(s.drop_last(), rm.drop_last());
        assert(keep_seq(s, rm) =~= s);
    }
}

/// With every mark at or above `k` clear, keeping splits at `k`.
pub proof fn lemma_keep_split<T>(s: Seq<T>, rm: Seq<bool>, k: int)
    requires
        s.len() == rm.len(),
        0 <= k <= s.len(),
        forall|j: int| k <= j < s.len() ==> !rm[j],
    ensures
        keep_seq(s, rm) == keep_seq(s.take(k), rm.take(k)) + s.skip(k),
    decreases s.len(),
{
    if s.len() == k {
        assert(s.take(k) =~= s);
        assert(rm.take(k) =~= rm);
        assert(keep_seq(s.take(k), rm.take(k)) + s.skip(k) =~= keep_seq(s, rm));
    } else {
        lemma_keep_split(s.drop_last(), rm.drop_last(), k);
        assert(s.drop_last().take(k) =~= s.take(k));
        assert(rm.drop_last().take(k) =~= rm.take(k));
        assert(keep_seq(s, rm) =~= keep_seq(s.take(k), rm.take(k)) + s.skip(k));
    }
}

/// One backspace keystroke as the editor applies it: the control code
/// enters the buffer at the cursor, the next layout pass removes it
/// together with the code before it, and the cursor steps left (staying
/// at zero with nothing before it).
pub open spec fn backspace_edit(buf: Seq<u8>, idx: int, env: LayoutEnv) -> (Seq<u8>, int) {
    let b2 = buf.insert(idx, BACKSPACE_CODE);
    let st = placed(b2, env, b2.len() as int);
    (keep_seq(b2, st.rm), if idx > 0 {
        idx - 1
    } else {
        0
    })
}

/// Inserting a code and then issuing a backspace right after it cancels
/// exactly: the next removal pass drops just that pair, so the buffer and
/// cursor return to where they stood before the insertion.
pub proof fn lemma_backspace_undoes_insert(buf: Seq<u8>, idx: int, code: u8, env: LayoutEnv)
    requires
        0 <= idx <= buf.len(),
        forall|j: int|
            0 <= j < buf.len() ==> !((#[trigger] text_command(buf[j])) is Backspace),
        !(text_command(code) is Backspace),
    ensures
        backspace_edit(buf.insert(idx, code), idx + 1, env) == (buf, idx),
{
    let b2 = buf.insert(idx, code);
    buf.insert_ensures(idx, code);
    let b3 = b2.insert(idx + 1, BACKSPACE_CODE);
    b2.insert_ensures(idx + 1, BACKSPACE_CODE);
    let st = placed(b3, env, b3.len() as int);
    lemma_removal_marks(b3, env, b3.len() as int);
    assert(text_command(BACKSPACE_CODE) is Backspace);
    assert forall|j: int| 0 <= j < b3.len() implies st.rm[j] == (j == idx || j == idx + 1) by {
        if j < idx {
            assert(b3[j] == b2[j] && b2[j] == buf[j]);
            assert(b3[j + 1] == b2[j + 1]);
            if j + 1 < idx {
                assert(b2[j + 1] == buf[j + 1]);
            } else {
                assert(b2[idx] == code);
            }
        } else if j == idx {
            assert(b3[j] == b2[j] && b2[idx] == code);
            assert(b3[idx + 1] == BACKSPACE_CODE);
        } else if j == idx + 1 {
            assert(b3[j] == BACKSPACE_CODE);
        } else {
            assert(b3[j] == b2[j - 1] && b2[j - 1] == buf[j - 2]);
            if j + 1 < b3.len() {
                assert(b3[j + 1] == b2[j] && b2[j] == buf[j - 1]);
            }
        }
    }
    lemma_keep_split(b3, st.rm, idx + 2);
    lemma_placed_len(b3, env, b3.len() as int);
    assert(b3.take(idx + 2).drop_last() =~= b3.take(idx + 1));
    assert(st.rm.take(idx + 2).drop_last() =~= st.rm.take(idx + 1));
    assert(b3.take(idx + 1).drop_last() =~= b3.take(idx));
    assert(st.rm.take(idx + 1).drop_last() =~= st.rm.take(idx));
    assert(st.rm.take(idx + 2)[idx + 1] && st.rm.take(idx + 1)[idx]);
    assert(keep_seq(b3.take(idx + 2), st.rm.take(idx + 2)) == keep_seq(
        b3.take(idx + 1),
        st.rm.take(idx + 1),
    ));
    assert(keep_seq(b3.take(idx + 1), st.rm.take(idx + 1)) == keep_seq(
        b3.take(idx),
        st.rm.take(idx),
    ));
    lemma_keep_none(b3.take(idx), st.rm.take(idx));
    assert(keep_seq(b3, st.rm) =~= buf);
}

/// The index the code after a printable glyph contributes to the kerning
/// pair: its own table index, or glyph zero when it has none.
fn kern_right_index(code: u8) -> (r: usize)
    ensures
        r == kern_right(code),
{
    match char_to_index_checked(code) {
        Some(ix) => ix,
        None => 0,
    }
}

/// Scans backward from `i` for the nearest whitespace and returns the
/// index just after it: the first character of the run a wrap at `i`
/// moves to a fresh line. Without any whitespace before `i`, returns `i`.
fn find_wrap_from(buffer: &Vec<u8>, i: usize) -> (r: usize)
    requires
        i < buffer@.len(),
    ensures
        r == wrap_from(buffer@, i as int),
        r <= i,
{
    let mut j = i;
    while j > 0
        invariant
            j <= i,
            i < buffer@.len(),
            rfind_ws(buffer@, i as int) == rfind_ws(buffer@, j as int),
        decreases j,
    {
        if is_whitespace(buffer[j - 1]) {
            return j;
        }
        j = j - 1;
    }
    i
}

/// Lays the buffer out from `start` within `box_width`, mutating the
/// buffer by the backspace pairs it removes, and returns the glyph
/// instances to draw and the per-character screen positions.
///
/// The result is pinned to the `placed` fold: the mutated buffer and the
/// positions are the fold's records with the marked pairs removed (so the
/// two stay index-aligned, one position per remaining code), and the
/// instances are those of the cleaned buffer at those positions.
pub fn layout(
    buffer: &mut Vec<u8>,
    start: Pos,
    box_width: i64,
    atlas: &Atlas,
    kerning: &KerningTable,
) -> (r: (Vec<GlyphInstance>, Vec<Pos>))
    requires
        atlas.wf(),
        atlas.advances@.len() == NUM_ASCII_CHARS as int,
        kerning.wf(),
        old(buffer)@.len() <= MAX_TEXT_LEN,
        -MAX_COORD <= start.x <= MAX_COORD,
        -MAX_COORD <= start.y <= MAX_COORD,
        -MAX_COORD <= box_width <= MAX_COORD,
    ensures
        ({
            let env = env_of(*atlas, *kerning, start@, box_width as int);
            let st = placed(old(buffer)@, env, old(buffer)@.len() as int);
            &&& final(buffer)@ == keep_seq(old(buffer)@, st.rm)
            &&& views(r.1@) == keep_seq(st.ps, st.rm)
            &&& r.1@.len() == final(buffer)@.len()
            &&& inst_views(r.0@) == instances(
                final(buffer)@,
                keep_seq(st.ps, st.rm),
                atlas.cboxes@,
                final(buffer)@.len() as int,
            )
        }),
{
    let ghost codes = buffer@;
    let ghost env = env_of(*atlas, *kerning, start@, box_width as int);
    proof {
        assert(env_wf(env));
    }
    let n = buffer.len();
    let slot = atlas.max_height as i64;
    let mut positions: Vec<Pos> = Vec::new();
    let mut removed: Vec<bool> = Vec::new();
    let mut pen = start;
    for i in 0..n
        invariant
            buffer@ == codes,
            n == codes.len(),
            codes.len() <= MAX_TEXT_LEN,
            atlas.wf(),
            atlas.advances@.len() == NUM_ASCII_CHARS as int,
            kerning.wf(),
            env == env_of(*atlas, *kerning, start@, box_width as int),
            env_wf(env),
            slot == env.slot_h,
            positions@.len() == i,
            removed@.len() == i,
            views(positions@) == placed(codes, env, i as int).ps,
            removed@ == placed(codes, env, i as int).rm,
            pen@ == placed(codes, env, i as int).pen,
    {
        proof {
            lemma_placed_ok(codes, env, i as int);
            lemma_placed_ok(codes, env, i + 1);
        }
        let ghost st = placed(codes, env, i as int);
        let ghost st2 = placed(codes, env, i + 1);
        let code = buffer[i];
        match decode_text(code) {
            TextCommand::Char(gi) => {
                let ghost pos0 = st.pen;
                positions.push(pen);
                removed.push(false);
                let ghost ps1 = st.ps.push(pos0);
                proof {
                    assert(views(positions@) =~= ps1);
                    assert(gi < NUM_ASCII_CHARS);
                    assert(forall|k: int|
                        0 <= k < ps1.len() ==> coord_ok(#[trigger] ps1[k], env, i as int));
                }
                let adv = atlas.get_advance(gi);
                let ka = if i + 1 < n {
                    let rk = kern_right_index(buffer[i + 1]);
                    let kv = kerning.lookup(gi, rk);
                    crate::geom::fixed_to_px(kv.x)
                } else {
                    0
                };
                proof {
                    assert(adv == px_advance(env, gi as int));
                    assert(ka == if i + 1 < codes.len() {
                        kern_px(env, gi as int, kern_right(codes[i + 1]))
                    } else {
                        0int
                    });
                    assert(-(PEN_STEP / 2) <= ka <= PEN_STEP / 2) by {
                        if i + 1 < codes.len() {
                            lemma_kern_vec_bounded(
                                env.kern,
                                gi as int,
                                kern_right(codes[i + 1]),
                            );
                            vstd::arithmetic::div_mod::lemma_div_is_ordered(
                                -(MAX_ADVANCE as int),
                                kern_vec(env.kern, gi as int, kern_right(codes[i + 1])).x as int,
                                64,
                            );
                            vstd::arithmetic::div_mod::lemma_div_is_ordered(
                                kern_vec(env.kern, gi as int, kern_right(codes[i + 1])).x as int,
                                MAX_ADVANCE as int,
                                64,
                            );
                            assert(-(MAX_ADVANCE as int) / 64 == -(PEN_STEP / 2));
                            assert(MAX_ADVANCE / 64 == PEN_STEP / 2);
                        }
                    }
                    assert(adv <= PEN_STEP / 2) by {
                        vstd::arithmetic::div_mod::lemma_div_is_ordered(
                            env.advances[gi as int].x as int,
                            MAX_ADVANCE as int,
                            64,
                        );
                        assert(MAX_ADVANCE / 64 == PEN_STEP / 2);
                    }
                }
                let penx = pen.x + adv + ka;
                if penx - start.x >= box_width && !is_whitespace(code) {
                    let from = find_wrap_from(buffer, i);
                    proof {
                        lemma_wrap_from_range(codes, i as int);
                    }
                    let diff = positions[from].x - start.x;
                    let ghost dd = diff as int;
                    if diff <= 0 {
                        let py = positions[i].y;
                        positions[i] = Pos { x: start.x, y: py - slot };
                        proof {
                            assert(views(positions@) =~= st2.ps);
                        }
                    } else {
                        let mut j = from;
                        while j <= i
                            invariant
                                from <= j <= i + 1,
                                i < n,
                                n == codes.len(),
                                positions@.len() == i + 1,
                                slot == env.slot_h,
                                1 <= env.slot_h <= 0x800,
                                -MAX_COORD <= env.start.x <= MAX_COORD,
                                -MAX_COORD <= env.start.y <= MAX_COORD,
                                dd == ps1[from as int].x - env.start.x,
                                0 < dd <= X_SPAN,
                                diff == dd,
                                start@ == env.start,
                                forall|k: int|
                                    0 <= k < ps1.len() ==> {
                                        &&& env.start.x - X_SPAN <= (#[trigger] ps1[k]).x
                                            <= env.start.x + X_SPAN
                                        &&& env.start.y - Y_SPAN <= ps1[k].y <= env.start.y
                                    },
                                ps1.len() == i + 1,
                                forall|k: int|
                                    0 <= k < positions@.len() ==> (#[trigger] positions@[k])@
                                        == (if from <= k && k < j {
                                        IntPos { x: ps1[k].x - dd, y: ps1[k].y - env.slot_h }
                                    } else {
                                        ps1[k]
                                    }),
                            decreases i + 1 - j,
                        {
                            let px = positions[j].x;
                            let py = positions[j].y;
                            positions[j] = Pos { x: px - diff, y: py - slot };
                            j = j + 1;
                        }
                        proof {
                            assert(views(positions@) =~= st2.ps);
                        }
                    }
                    let px = positions[i].x + adv;
                    pen = Pos { x: px, y: pen.y - slot };
                    proof {
                        assert(views(positions@) =~= st2.ps);
                        assert(pen@ == st2.pen);
                        assert(removed@ == st2.rm);
                    }
                } else {
                    pen = Pos { x: penx, y: pen.y };
                    proof {
                        assert(views(positions@) =~= st2.ps);
                        assert(pen@ == st2.pen);
                        assert(removed@ == st2.rm);
                    }
                }
            },
            TextCommand::Backspace => {
                if i > 0 {
                    let p = positions[i - 1];
                    positions.push(p);
                    removed[i - 1] = true;
                    removed.push(true);
                    pen = p;
                } else {
                    positions.push(pen);
                    removed.push(true);
                }
                proof {
                    assert(views(positions@) =~= st2.ps);
                    assert(removed@ == st2.rm);
                }
            },
            TextCommand::Newline => {
                positions.push(pen);
                removed.push(false);
                pen = Pos { x: start.x, y: pen.y - slot };
                proof {
                    assert(views(positions@) =~= st2.ps);
                    assert(removed@ == st2.rm);
                }
            },
            TextCommand::Unknown => {
                positions.push(pen);
                removed.push(false);
                proof {
                    assert(views(positions@) =~= st2.ps);
                    assert(removed@ == st2.rm);
                }
            },
        }
    }
    let ghost stf = placed(codes, env, n as int);
    // removal pass: drop the marked backspace pairs, keeping positions
    // aligned with the buffer
    let mut new_buf: Vec<u8> = Vec::new();
    let mut new_pos: Vec<Pos> = Vec::new();
    for i in 0..n
        invariant
            buffer@ == codes,
            n == codes.len(),
            positions@.len() == n,
            removed@.len() == n,
            views(positions@) == stf.ps,
            removed@ == stf.rm,
            stf == placed(codes, env, n as int),
            new_buf@ == keep_seq(codes.take(i as int), stf.rm.take(i as int)),
            views(new_pos@) == keep_seq(stf.ps.take(i as int), stf.rm.take(i as int)),
            new_buf@.len() == new_pos@.len(),
    {
        proof {
            assert(codes.take(i + 1).drop_last() =~= codes.take(i as int));
            assert(stf.rm.take(i + 1).drop_last() =~= stf.rm.take(i as int));
            assert(stf.ps.take(i + 1).drop_last() =~= stf.ps.take(i as int));
            assert(codes.take(i + 1).last() == codes[i as int]);
            assert(stf.ps.take(i + 1).last() == stf.ps[i as int]);
            assert(stf.rm.take(i + 1)[stf.rm.take(i + 1).len() - 1] == stf.rm[i as int]);
        }
        if !removed[i] {
            new_buf.push(buffer[i]);
            new_pos.push(positions[i]);
            proof {
                assert(views(new_pos@) =~= keep_seq(stf.ps.take(i + 1), stf.rm.take(i + 1)));
            }
        }
    }
    proof {
        assert(codes.take(n as int) =~= codes);
        assert(stf.rm.take(n as int) =~= stf.rm);
        assert(stf.ps.take(n as int) =~= stf.ps);
    }
    *buffer = new_buf;
    // emission pass: one instance per printable code of the cleaned
    // buffer, anchored at its ink box corner; newlines render the blank
    // glyph's cell
    let ghost clean_ps = keep_seq(stf.ps, stf.rm);
    let m = buffer.len();
    proof {
        lemma_placed_ok(codes, env, n as int);
        assert forall|k: int| 0 <= k < clean_ps.len() implies {
            &&& env.start.x - X_SPAN <= (#[trigger] clean_ps[k]).x <= env.start.x + X_SPAN
            &&& env.start.y - Y_SPAN <= clean_ps[k].y <= env.start.y
        } by {
            lemma_keep_entry(stf.ps, stf.rm, k);
        }
    }
    let mut insts: Vec<GlyphInstance> = Vec::new();
    for i in 0..m
        invariant
            m == buffer@.len(),
            buffer@.len() == new_pos@.len(),
            views(new_pos@) == clean_ps,
            clean_ps.len() == new_pos@.len(),
            atlas.wf(),
            atlas.advances@.len() == NUM_ASCII_CHARS as int,
            forall|k: int|
                0 <= k < clean_ps.len() ==> {
                    &&& env.start.x - X_SPAN <= (#[trigger] clean_ps[k]).x <= env.start.x
                        + X_SPAN
                    &&& env.start.y - Y_SPAN <= clean_ps[k].y <= env.start.y
                },
            -MAX_COORD <= env.start.x <= MAX_COORD,
            -MAX_COORD <= env.start.y <= MAX_COORD,
            inst_views(insts@) == instances(buffer@, clean_ps, atlas.cboxes@, i as int),
    {
        match decode_text(buffer[i]) {
            TextCommand::Char(gi) => {
                proof {
                    assert(views(new_pos@)[i as int] == new_pos@[i as int]@);
                    assert(env.start.x - X_SPAN <= clean_ps[i as int].x <= env.start.x + X_SPAN);
                }
                let cb = atlas.cboxes[gi];
                let p = new_pos[i];
                insts.push(
                    GlyphInstance {
                        position: Pos { x: p.x + cb.x_min, y: p.y + cb.y_min },
                        atlas_slot: gi as u64,
                    },
                );
                proof {
                    assert(inst_views(insts@) =~= instances(
                        buffer@,
                        clean_ps,
                        atlas.cboxes@,
                        i + 1,
                    ));
                }
            },
            TextCommand::Newline => {
                proof {
                    assert(views(new_pos@)[i as int] == new_pos@[i as int]@);
                    assert(env.start.x - X_SPAN <= clean_ps[i as int].x <= env.start.x + X_SPAN);
                }
                let cb = atlas.cboxes[0];
                let p = new_pos[i];
                insts.push(
                    GlyphInstance {
                        position: Pos { x: p.x + cb.x_min, y: p.y + cb.y_min },
                        atlas_slot: 0,
                    },
                );
                proof {
                    assert(inst_views(insts@) =~= instances(
                        buffer@,
                        clean_ps,
                        atlas.cboxes@,
                        i + 1,
                    ));
                }
            },
            _ => {},
        }
    }
    (insts, new_pos)
}

} // verus!
