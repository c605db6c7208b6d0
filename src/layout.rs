use vstd::prelude::*;

verus! {

/// An axis-aligned placement in canvas pixels.
#[derive(Debug, Copy, Clone, PartialEq, Eq, Structural)]
pub struct Rectangle {
    pub x: u32,
    pub y: u32,
    pub w: u32,
    pub h: u32,
}

impl Rectangle {
    pub open spec fn right(self) -> int {
        self.x + self.w
    }

    pub open spec fn bottom(self) -> int {
        self.y + self.h
    }

    /// Lies within a `width` x `height` canvas.
    pub open spec fn within(self, width: int, height: int) -> bool {
        self.right() <= width && self.bottom() <= height
    }

    /// Shares no pixel with `other`.
    pub open spec fn disjoint(self, other: Rectangle) -> bool {
        self.right() <= other.x || other.right() <= self.x || self.bottom() <= other.y
            || other.bottom() <= self.y
    }
}

/// `v`, or `u32::MAX` where it does not fit.
pub open spec fn saturate(v: int) -> u32 {
    if v > u32::MAX {
        u32::MAX
    } else {
        v as u32
    }
}

/// Whether a `sw` x `sh` source scaled into `space` is bounded by its height
/// (`space.w / aspect > space.h`), rather than by its width.
pub open spec fn height_binding(space: Rectangle, sw: u32, sh: u32) -> bool {
    space.w as int * sh as int > space.h as int * sw as int
}

/// The largest rectangle at the corner of `space` with the aspect ratio of a
/// `sw` x `sh` source, the free side floored to whole pixels.
pub open spec fn fit_dimensions(space: Rectangle, sw: u32, sh: u32) -> Rectangle {
    if height_binding(space, sw, sh) {
        Rectangle { x: space.x, y: space.y, w: (space.h as int * sw as int / (sh as int)) as u32, h: space.h }
    } else {
        Rectangle { x: space.x, y: space.y, w: space.w, h: (space.w as int * sh as int / (sw as int)) as u32 }
    }
}

/// A `sw` x `sh` source scaled to the height of `space`.
pub open spec fn fit_height(space: Rectangle, sw: u32, sh: u32) -> Rectangle {
    Rectangle { x: space.x, y: space.y, w: saturate(space.h as int * sw as int / (sh as int)), h: space.h }
}

/// A `sw` x `sh` source scaled to the width of `space`.
pub open spec fn fit_width(space: Rectangle, sw: u32, sh: u32) -> Rectangle {
    Rectangle { x: space.x, y: space.y, w: space.w, h: saturate(space.w as int * sh as int / (sw as int)) }
}

/// Scales a `sw` x `sh` source to fit `space`, keeping its aspect ratio.
pub fn best_fit_for_dimensions(space: Rectangle, sw: u32, sh: u32) -> (r: Rectangle)
    requires
        sw > 0,
        sh > 0,
    ensures
        r == fit_dimensions(space, sw, sh),
{
    let max_width = space.w as u64;
    let max_height = space.h as u64;
    proof {
        assert(space.w * sh <= u32::MAX * u32::MAX) by (nonlinear_arith)
            requires
                space.w <= u32::MAX,
                sh <= u32::MAX,
        ;
        assert(space.h * sw <= u32::MAX * u32::MAX) by (nonlinear_arith)
            requires
                space.h <= u32::MAX,
                sw <= u32::MAX,
        ;
    }
    if max_width * sh as u64 > max_height * sw as u64 {
        let w = max_height * sw as u64 / sh as u64;
        assert(space.h as int * sw as int / (sh as int) < space.w) by (nonlinear_arith)
            requires
                space.w * sh > space.h * sw,
                sh > 0,
        ;
        Rectangle { x: space.x, y: space.y, w: w as u32, h: space.h }
    } else {
        let h = max_width * sh as u64 / sw as u64;
        assert(space.w as int * sh as int / (sw as int) <= space.h) by (nonlinear_arith)
            requires
                space.w * sh <= space.h * sw,
                sw > 0,
        ;
        Rectangle { x: space.x, y: space.y, w: space.w, h: h as u32 }
    }
}

/// Scales a `sw` x `sh` source to the height of `space`.
pub fn best_fit_for_height(space: Rectangle, sw: u32, sh: u32) -> (r: Rectangle)
    requires
        sh > 0,
    ensures
        r == fit_height(space, sw, sh),
{
    proof {
        assert(space.h * sw <= u32::MAX * u32::MAX) by (nonlinear_arith)
            requires
                space.h <= u32::MAX,
                sw <= u32::MAX,
        ;
    }
    let w = space.h as u64 * sw as u64 / sh as u64;
    let w = if w > u32::MAX as u64 {
        u32::MAX
    } else {
        w as u32
    };
    Rectangle { x: space.x, y: space.y, w, h: space.h }
}

/// Scales a `sw` x `sh` source to the width of `space`.
pub fn best_fit_for_width(space: Rectangle, sw: u32, sh: u32) -> (r: Rectangle)
    requires
        sw > 0,
    ensures
        r == fit_width(space, sw, sh),
{
    proof {
        assert(space.w * sh <= u32::MAX * u32::MAX) by (nonlinear_arith)
            requires
                space.w <= u32::MAX,
                sh <= u32::MAX,
        ;
    }
    let h = space.w as u64 * sh as u64 / sw as u64;
    let h = if h > u32::MAX as u64 {
        u32::MAX
    } else {
        h as u32
    };
    Rectangle { x: space.x, y: space.y, w: space.w, h }
}

/// The aspect ratio survives the fit up to the flooring of the free side,
/// and the result stays inside the box.
pub proof fn lemma_fit_preserves_aspect(space: Rectangle, sw: u32, sh: u32)
    requires
        sw > 0,
        sh > 0,
    ensures
        ({
            let r = fit_dimensions(space, sw, sh);
            &&& r.w <= space.w
            &&& r.h <= space.h
            &&& (r.w == space.w && r.h * sw <= r.w * sh < (r.h + 1) * sw) || (r.h == space.h
                && r.w * sh <= r.h * sw < (r.w + 1) * sh)
        }),
{
    let r = fit_dimensions(space, sw, sh);
    if height_binding(space, sw, sh) {
        let n = space.h as int * sw as int;
        vstd::arithmetic::div_mod::lemma_fundamental_div_mod(n, sh as int);
        assert(n / (sh as int) * sh <= n < (n / (sh as int) + 1) * sh) by (nonlinear_arith)
            requires
                n == sh * (n / (sh as int)) + n % (sh as int),
                0 <= n % (sh as int) < sh,
        ;
        assert(n / (sh as int) < space.w) by (nonlinear_arith)
            requires
                space.w * sh > n,
                sh > 0,
                n >= 0,
        ;
    } else {
        let n = space.w as int * sh as int;
        vstd::arithmetic::div_mod::lemma_fundamental_div_mod(n, sw as int);
        assert(n / (sw as int) * sw <= n < (n / (sw as int) + 1) * sw) by (nonlinear_arith)
            requires
                n == sw * (n / (sw as int)) + n % (sw as int),
                0 <= n % (sw as int) < sw,
        ;
        assert(n / (sw as int) <= space.h) by (nonlinear_arith)
            requires
                n <= space.h * sw,
                sw > 0,
                n >= 0,
        ;
    }
}

/// Scaled to one side of a box, a source keeps its aspect ratio up to the
/// flooring of the other side, wherever that side does not saturate.
pub proof fn lemma_fit_side_preserves_aspect(space: Rectangle, sw: u32, sh: u32)
    requires
        sw > 0,
        sh > 0,
    ensures
        ({
            let r = fit_height(space, sw, sh);
            r.w < u32::MAX ==> r.w * sh <= r.h * sw < (r.w + 1) * sh
        }),
        ({
            let r = fit_width(space, sw, sh);
            r.h < u32::MAX ==> r.h * sw <= r.w * sh < (r.h + 1) * sw
        }),
{
    let n = space.h as int * sw as int;
    vstd::arithmetic::div_mod::lemma_fundamental_div_mod(n, sh as int);
    assert(n / (sh as int) * sh <= n < (n / (sh as int) + 1) * sh) by (nonlinear_arith)
        requires
            n == sh * (n / (sh as int)) + n % (sh as int),
            0 <= n % (sh as int) < sh,
    ;
    let k = space.w as int * sh as int;
    vstd::arithmetic::div_mod::lemma_fundamental_div_mod(k, sw as int);
    assert(k / (sw as int) * sw <= k < (k / (sw as int) + 1) * sw) by (nonlinear_arith)
        requires
            k == sw * (k / (sw as int)) + k % (sw as int),
            0 <= k % (sw as int) < sw,
    ;
}

/// Fewest images a row or column must take for the split to be used.
pub const MINIMUM_IMAGES_IN_SPLIT: usize = 2;

/// Distance from the start of a strip to item `n` when items follow each
/// other with `margin` between them.
pub open spec fn advance(lengths: Seq<u32>, margin: nat, n: nat) -> nat
    decreases n,
{
    if n == 0 {
        0
    } else {
        advance(lengths, margin, (n - 1) as nat) + lengths[n - 1] as nat + margin
    }
}

/// Item `i` ends within `limit` when placed after those before it.
pub open spec fn item_fits(lengths: Seq<u32>, margin: nat, limit: nat, i: nat) -> bool {
    advance(lengths, margin, i) + lengths[i as int] <= limit
}

/// Number of items taken from `i` on: items are taken in order until the
/// first one that no longer fits.
pub open spec fn fitting_count(lengths: Seq<u32>, margin: nat, limit: nat, i: nat) -> nat
    decreases lengths.len() - i,
{
    if i < lengths.len() && item_fits(lengths, margin, limit, i) {
        fitting_count(lengths, margin, limit, i + 1)
    } else {
        i
    }
}

/// Offsets along a strip `limit` long of the leading items that fit, the
/// block centred (a half pixel rounds up).
pub open spec fn strip_offsets(lengths: Seq<u32>, margin: nat, limit: nat) -> Seq<nat> {
    let k = fitting_count(lengths, margin, limit, 0);
    if k == 0 {
        seq![]
    } else {
        let used = advance(lengths, margin, k) - margin;
        let shift = ((limit - used + 1) / 2) as nat;
        Seq::new(k, |i: int| advance(lengths, margin, i as nat) + shift)
    }
}

proof fn lemma_advance_monotonic(lengths: Seq<u32>, margin: nat, i: nat, j: nat)
    requires
        i <= j <= lengths.len(),
    ensures
        advance(lengths, margin, i) <= advance(lengths, margin, j),
    decreases j - i,
{
    if i < j {
        lemma_advance_monotonic(lengths, margin, i, (j - 1) as nat);
    }
}

proof fn lemma_fitting_count(lengths: Seq<u32>, margin: nat, limit: nat, i: nat)
    requires
        i <= lengths.len(),
    ensures
        i <= fitting_count(lengths, margin, limit, i) <= lengths.len(),
        forall|j: nat|
            i <= j < fitting_count(lengths, margin, limit, i) ==> item_fits(
                lengths,
                margin,
                limit,
                j,
            ),
    decreases lengths.len() - i,
{
    if i < lengths.len() && item_fits(lengths, margin, limit, i) {
        lemma_fitting_count(lengths, margin, limit, i + 1);
    }
}

/// The offsets of a strip: one for each leading item that fits, consecutive
/// items `margin` apart, none overlapping a later one, and all ending within
/// `limit`.
pub proof fn lemma_strip_offsets(lengths: Seq<u32>, margin: nat, limit: nat)
    ensures
        strip_offsets(lengths, margin, limit).len() <= lengths.len(),
        strip_offsets(lengths, margin, limit).len() == fitting_count(lengths, margin, limit, 0),
        forall|i: nat|
            i < strip_offsets(lengths, margin, limit).len() ==> item_fits(lengths, margin, limit, i),
        forall|i: int|
            0 <= i < strip_offsets(lengths, margin, limit).len() ==> #[trigger] strip_offsets(
                lengths,
                margin,
                limit,
            )[i] + lengths[i] <= limit,
        forall|i: int|
            0 <= i < strip_offsets(lengths, margin, limit).len() - 1 ==> #[trigger] strip_offsets(
                lengths,
                margin,
                limit,
            )[i + 1] == strip_offsets(lengths, margin, limit)[i] + lengths[i] + margin,
        forall|i: int, j: int|
            0 <= i < j < strip_offsets(lengths, margin, limit).len() ==> #[trigger] strip_offsets(
                lengths,
                margin,
                limit,
            )[i] + lengths[i] <= #[trigger] strip_offsets(lengths, margin, limit)[j],
{
    let k = fitting_count(lengths, margin, limit, 0);
    lemma_fitting_count(lengths, margin, limit, 0);
    let o = strip_offsets(lengths, margin, limit);
    if k >= 1 {
        let used = advance(lengths, margin, k) - margin;
        assert(item_fits(lengths, margin, limit, (k - 1) as nat));
        assert(used == advance(lengths, margin, (k - 1) as nat) + lengths[k - 1]);
        let shift = ((limit - used + 1) / 2) as nat;
        assert(shift + used <= limit);
        assert forall|i: int| 0 <= i < o.len() implies #[trigger] o[i] + lengths[i] <= limit by {
            lemma_advance_monotonic(lengths, margin, (i + 1) as nat, k);
        }
        assert forall|i: int, j: int| 0 <= i < j < o.len() implies #[trigger] o[i] + lengths[i]
            <= #[trigger] o[j] by {
            lemma_advance_monotonic(lengths, margin, (i + 1) as nat, j as nat);
        }
    }
}

/// Offsets of the items of a strip; see `strip_offsets`.
pub fn place_in_strip(lengths: &Vec<u32>, limit: u32, margin: u32) -> (r: Vec<u32>)
    ensures
        r@.len() == strip_offsets(lengths@, margin as nat, limit as nat).len(),
        forall|i: int|
            0 <= i < r@.len() ==> r@[i] as nat == #[trigger] strip_offsets(
                lengths@,
                margin as nat,
                limit as nat,
            )[i],
{
    let ghost ls = lengths@;
    let ghost m = margin as nat;
    let ghost lim = limit as nat;
    proof {
        lemma_fitting_count(ls, m, lim, 0);
    }
    let mut used: u64 = 0;
    let mut count: usize = 0;
    let mut fits = true;
    while count < lengths.len() && fits
        invariant
            ls == lengths@,
            m == margin as nat,
            lim == limit as nat,
            count <= ls.len(),
            used == advance(ls, m, count as nat),
            fitting_count(ls, m, lim, 0) == if fits {
                fitting_count(ls, m, lim, count as nat)
            } else {
                count as nat
            },
            used <= lim + m,
        decreases ls.len() - count, if fits { 1int } else { 0int },
    {
        let l = lengths[count] as u64;
        if used + l <= limit as u64 {
            proof {
                assert(item_fits(ls, m, lim, count as nat));
                assert(fitting_count(ls, m, lim, count as nat) == fitting_count(ls, m, lim, (count + 1) as nat));
                assert(advance(ls, m, (count + 1) as nat) == advance(ls, m, count as nat) + ls[count as int] + m);
            }
            used = used + l + margin as u64;
            count = count + 1;
        } else {
            assert(!item_fits(ls, m, lim, count as nat));
            fits = false;
        }
    }
    let mut offsets: Vec<u32> = Vec::new();
    if count == 0 {
        return offsets;
    }
    proof {
        lemma_strip_offsets(ls, m, lim);
    }
    let shift = (limit as u64 - (used - margin as u64) + 1) / 2;
    let mut pos: u64 = shift;
    let mut i: usize = 0;
    while i < count
        invariant
            ls == lengths@,
            m == margin as nat,
            lim == limit as nat,
            count == fitting_count(ls, m, lim, 0),
            count >= 1,
            count <= ls.len(),
            i <= count,
            shift == (lim - (advance(ls, m, count as nat) - m) + 1) / 2,
            pos == advance(ls, m, i as nat) + shift,
            offsets@.len() == i,
            forall|j: int| 0 <= j < i ==> offsets@[j] as nat == #[trigger] strip_offsets(ls, m, lim)[j],
        decreases count - i,
    {
        proof {
            lemma_strip_offsets(ls, m, lim);
        }
        assert(strip_offsets(ls, m, lim)[i as int] == pos);
        assert(pos + ls[i as int] <= lim);
        offsets.push(pos as u32);
        assert(advance(ls, m, (i + 1) as nat) == advance(ls, m, i as nat) + ls[i as int] + m);
        pos = pos + lengths[i] as u64 + margin as u64;
        i = i + 1;
    }
    offsets
}

/// Every source size has a positive width and height.
pub open spec fn positive_sizes(sizes: Seq<(u32, u32)>) -> bool {
    forall|i: int| 0 <= i < sizes.len() ==> #[trigger] sizes[i].0 > 0 && sizes[i].1 > 0
}

/// Widths of the sources scaled to the height of `space`.
pub open spec fn row_lengths(sizes: Seq<(u32, u32)>, space: Rectangle) -> Seq<u32> {
    Seq::new(sizes.len(), |i: int| fit_height(space, sizes[i].0, sizes[i].1).w)
}

/// Heights of the sources scaled to the width of `space`.
pub open spec fn column_lengths(sizes: Seq<(u32, u32)>, space: Rectangle) -> Seq<u32> {
    Seq::new(sizes.len(), |i: int| fit_width(space, sizes[i].0, sizes[i].1).h)
}

/// The row placed in `space`: the leading sources that fit, each as tall as
/// `space`, `margin` apart and centred as a block.
pub open spec fn row_layout(sizes: Seq<(u32, u32)>, space: Rectangle, margin: u32) -> Seq<Rectangle> {
    let ls = row_lengths(sizes, space);
    let o = strip_offsets(ls, margin as nat, space.w as nat);
    Seq::new(o.len(), |i: int| Rectangle { x: (space.x + o[i]) as u32, y: space.y, w: ls[i], h: space.h })
}

/// The column placed in `space`: the leading sources that fit, each as wide
/// as `space`, `margin` apart and centred as a block.
pub open spec fn column_layout(sizes: Seq<(u32, u32)>, space: Rectangle, margin: u32) -> Seq<Rectangle> {
    let ls = column_lengths(sizes, space);
    let o = strip_offsets(ls, margin as nat, space.h as nat);
    Seq::new(o.len(), |i: int| Rectangle { x: space.x, y: (space.y + o[i]) as u32, w: space.w, h: ls[i] })
}

/// Places sources left to right in `row_space`, each scaled to its height,
/// until one no longer fits; the row is centred horizontally.
fn place_row(sizes: &Vec<(u32, u32)>, row_space: Rectangle, margin: u32) -> (r: Vec<Rectangle>)
    requires
        positive_sizes(sizes@),
        row_space.x + row_space.w <= u32::MAX,
    ensures
        r@ == row_layout(sizes@, row_space, margin),
{
    let mut lengths: Vec<u32> = Vec::new();
    let mut i: usize = 0;
    while i < sizes.len()
        invariant
            positive_sizes(sizes@),
            i <= sizes@.len(),
            lengths@ == row_lengths(sizes@, row_space).take(i as int),
        decreases sizes@.len() - i,
    {
        let (sw, sh) = sizes[i];
        assert(sizes@[i as int].1 > 0);
        let fit = best_fit_for_height(row_space, sw, sh);
        lengths.push(fit.w);
        assert(lengths@ =~= row_lengths(sizes@, row_space).take(i + 1));
        i = i + 1;
    }
    assert(lengths@ =~= row_lengths(sizes@, row_space));
    let offsets = place_in_strip(&lengths, row_space.w, margin);
    proof {
        lemma_strip_offsets(lengths@, margin as nat, row_space.w as nat);
    }
    let mut rects: Vec<Rectangle> = Vec::new();
    let mut j: usize = 0;
    while j < offsets.len()
        invariant
            lengths@ == row_lengths(sizes@, row_space),
            offsets@.len() == strip_offsets(lengths@, margin as nat, row_space.w as nat).len(),
            offsets@.len() <= lengths@.len(),
            forall|k: int| 0 <= k < offsets@.len() ==> offsets@[k] as nat == #[trigger] strip_offsets(lengths@, margin as nat, row_space.w as nat)[k],
            forall|k: int| 0 <= k < offsets@.len() ==> #[trigger] strip_offsets(lengths@, margin as nat, row_space.w as nat)[k] + lengths@[k] <= row_space.w,
            row_space.x + row_space.w <= u32::MAX,
            j <= offsets@.len(),
            rects@ == row_layout(sizes@, row_space, margin).take(j as int),
        decreases offsets@.len() - j,
    {
        assert(strip_offsets(lengths@, margin as nat, row_space.w as nat)[j as int] == offsets@[j as int] as nat);
        assert(offsets@[j as int] + lengths@[j as int] <= row_space.w);
        let rect = Rectangle { x: row_space.x + offsets[j], y: row_space.y, w: lengths[j], h: row_space.h };
        rects.push(rect);
        assert(rects@ =~= row_layout(sizes@, row_space, margin).take(j + 1));
        j = j + 1;
    }
    assert(rects@ =~= row_layout(sizes@, row_space, margin));
    rects
}

/// Places sources top to bottom in `column_space`, each scaled to its
/// width, until one no longer fits; the column is centred vertically.
fn place_column(sizes: &Vec<(u32, u32)>, column_space: Rectangle, margin: u32) -> (r: Vec<Rectangle>)
    requires
        positive_sizes(sizes@),
        column_space.y + column_space.h <= u32::MAX,
    ensures
        r@ == column_layout(sizes@, column_space, margin),
{
    let mut lengths: Vec<u32> = Vec::new();
    let mut i: usize = 0;
    while i < sizes.len()
        invariant
            positive_sizes(sizes@),
            i <= sizes@.len(),
            lengths@ == column_lengths(sizes@, column_space).take(i as int),
        decreases sizes@.len() - i,
    {
        let (sw, sh) = sizes[i];
        assert(sizes@[i as int].0 > 0);
        let fit = best_fit_for_width(column_space, sw, sh);
        lengths.push(fit.h);
        assert(lengths@ =~= column_lengths(sizes@, column_space).take(i + 1));
        i = i + 1;
    }
    assert(lengths@ =~= column_lengths(sizes@, column_space));
    let offsets = place_in_strip(&lengths, column_space.h, margin);
    proof {
        lemma_strip_offsets(lengths@, margin as nat, column_space.h as nat);
    }
    let mut rects: Vec<Rectangle> = Vec::new();
    let mut j: usize = 0;
    while j < offsets.len()
        invariant
            lengths@ == column_lengths(sizes@, column_space),
            offsets@.len() == strip_offsets(lengths@, margin as nat, column_space.h as nat).len(),
            offsets@.len() <= lengths@.len(),
            forall|k: int| 0 <= k < offsets@.len() ==> offsets@[k] as nat == #[trigger] strip_offsets(lengths@, margin as nat, column_space.h as nat)[k],
            forall|k: int| 0 <= k < offsets@.len() ==> #[trigger] strip_offsets(lengths@, margin as nat, column_space.h as nat)[k] + lengths@[k] <= column_space.h,
            column_space.y + column_space.h <= u32::MAX,
            j <= offsets@.len(),
            rects@ == column_layout(sizes@, column_space, margin).take(j as int),
        decreases offsets@.len() - j,
    {
        assert(strip_offsets(lengths@, margin as nat, column_space.h as nat)[j as int] == offsets@[j as int] as nat);
        assert(offsets@[j as int] + lengths@[j as int] <= column_space.h);
        let rect = Rectangle { x: column_space.x, y: column_space.y + offsets[j], w: column_space.w, h: lengths[j] };
        rects.push(rect);
        assert(rects@ =~= column_layout(sizes@, column_space, margin).take(j + 1));
        j = j + 1;
    }
    assert(rects@ =~= column_layout(sizes@, column_space, margin));
    rects
}

/// `row_layout`, or nothing where it holds fewer than
/// `MINIMUM_IMAGES_IN_SPLIT` images.
pub open spec fn filled_row(sizes: Seq<(u32, u32)>, space: Rectangle, margin: u32) -> Seq<Rectangle> {
    if row_layout(sizes, space, margin).len() < MINIMUM_IMAGES_IN_SPLIT {
        seq![]
    } else {
        row_layout(sizes, space, margin)
    }
}

/// `column_layout`, or nothing where it holds fewer than
/// `MINIMUM_IMAGES_IN_SPLIT` images.
pub open spec fn filled_column(sizes: Seq<(u32, u32)>, space: Rectangle, margin: u32) -> Seq<Rectangle> {
    if column_layout(sizes, space, margin).len() < MINIMUM_IMAGES_IN_SPLIT {
        seq![]
    } else {
        column_layout(sizes, space, margin)
    }
}

/// Places sources left to right in `row_space`, each scaled to its height,
/// until one no longer fits; the row is centred horizontally. Fewer than
/// `MINIMUM_IMAGES_IN_SPLIT` placed gives an empty row.
pub fn fill_row(sizes: &Vec<(u32, u32)>, row_space: Rectangle, margin: u32) -> (r: Vec<Rectangle>)
    requires
        positive_sizes(sizes@),
        row_space.x + row_space.w <= u32::MAX,
    ensures
        r@ == filled_row(sizes@, row_space, margin),
{
    let rects = place_row(sizes, row_space, margin);
    if rects.len() < MINIMUM_IMAGES_IN_SPLIT {
        Vec::new()
    } else {
        rects
    }
}

/// Places sources top to bottom in `column_space`, each scaled to its
/// width, until one no longer fits; the column is centred vertically. Fewer
/// than `MINIMUM_IMAGES_IN_SPLIT` placed gives an empty column.
pub fn fill_column(sizes: &Vec<(u32, u32)>, column_space: Rectangle, margin: u32) -> (r: Vec<Rectangle>)
    requires
        positive_sizes(sizes@),
        column_space.y + column_space.h <= u32::MAX,
    ensures
        r@ == filled_column(sizes@, column_space, margin),
{
    let rects = place_column(sizes, column_space, margin);
    if rects.len() < MINIMUM_IMAGES_IN_SPLIT {
        Vec::new()
    } else {
        rects
    }
}

/// Canvas width in pixels.
pub const MAX_WIDTH: u32 = 1200;

/// Canvas height in pixels.
pub const MAX_HEIGHT: u32 = 825;

/// A margin leaves room on the canvas on both sides of each axis.
pub open spec fn margin_fits(m: u32) -> bool {
    2 * m <= MAX_HEIGHT
}

/// The canvas less margin `m` on all four sides.
pub open spec fn free_space(m: u32) -> Rectangle {
    Rectangle { x: m, y: m, w: (MAX_WIDTH - 2 * m) as u32, h: (MAX_HEIGHT - 2 * m) as u32 }
}

/// Where a `size.0` x `size.1` primary goes: as large as the free space
/// allows, at its top left corner.
pub open spec fn primary_area(size: (u32, u32), m: u32) -> Rectangle {
    fit_dimensions(free_space(m), size.0, size.1)
}

/// Height of the band below `p`, margins taken off.
pub open spec fn row_band_height(p: Rectangle, m: u32) -> int {
    MAX_HEIGHT - p.y - p.h - 2 * m
}

/// Width of the band right of `p`, margins taken off.
pub open spec fn column_band_width(p: Rectangle, m: u32) -> int {
    MAX_WIDTH - p.x - p.w - 2 * m
}

/// The band below `p`, as wide as `p`.
pub open spec fn row_space(p: Rectangle, m: u32) -> Rectangle {
    Rectangle { x: m, y: (p.y + p.h + m) as u32, w: p.w, h: row_band_height(p, m) as u32 }
}

/// The band right of `p`, as tall as `p`.
pub open spec fn column_space(p: Rectangle, m: u32) -> Rectangle {
    Rectangle { x: (p.x + p.w + m) as u32, y: m, w: column_band_width(p, m) as u32, h: p.h }
}

/// `p` moved to the centre of the canvas (a half pixel rounds up).
pub open spec fn centered(p: Rectangle) -> Rectangle {
    Rectangle {
        x: ((MAX_WIDTH - p.w + 1) / 2) as u32,
        y: ((MAX_HEIGHT - p.h + 1) / 2) as u32,
        w: p.w,
        h: p.h,
    }
}

/// Areas of a single layout: the primary, maximized and centred.
pub open spec fn single_areas(primary: (u32, u32), m: u32) -> Seq<Rectangle> {
    seq![centered(primary_area(primary, m))]
}

/// Areas of a row layout: the primary, then below it one area for each
/// leading secondary that fits in the row; the primary alone and centred
/// where no secondary fits.
pub open spec fn row_areas(primary: (u32, u32), secondary: Seq<(u32, u32)>, m: u32) -> Seq<Rectangle> {
    let p = primary_area(primary, m);
    let row = row_layout(secondary, row_space(p, m), m);
    if row_band_height(p, m) > 0 && row.len() > 0 {
        seq![p] + row
    } else {
        seq![centered(p)]
    }
}

/// Areas of a column layout: the primary, then right of it one area for
/// each leading secondary that fits in the column; the primary alone and
/// centred where no secondary fits.
pub open spec fn column_areas(primary: (u32, u32), secondary: Seq<(u32, u32)>, m: u32) -> Seq<Rectangle> {
    let p = primary_area(primary, m);
    let column = column_layout(secondary, column_space(p, m), m);
    if column_band_width(p, m) > 0 && column.len() > 0 {
        seq![p] + column
    } else {
        seq![centered(p)]
    }
}

/// `p` moved to the centre of the canvas.
fn center_on_canvas(p: Rectangle) -> (r: Rectangle)
    requires
        p.w <= MAX_WIDTH,
        p.h <= MAX_HEIGHT,
    ensures
        r == centered(p),
{
    Rectangle { x: (MAX_WIDTH - p.w + 1) / 2, y: (MAX_HEIGHT - p.h + 1) / 2, w: p.w, h: p.h }
}

/// `area` alone.
fn only(area: Rectangle) -> (r: Vec<Rectangle>)
    ensures
        r@ == seq![area],
{
    let mut areas: Vec<Rectangle> = Vec::new();
    areas.push(area);
    assert(areas@ =~= seq![area]);
    areas
}

/// Number of leading secondaries that fit in the row below the primary.
pub open spec fn row_fitting(primary: (u32, u32), secondary: Seq<(u32, u32)>, m: u32) -> nat {
    let space = row_space(primary_area(primary, m), m);
    fitting_count(row_lengths(secondary, space), m as nat, space.w as nat, 0)
}

/// Number of leading secondaries that fit in the column right of the primary.
pub open spec fn column_fitting(primary: (u32, u32), secondary: Seq<(u32, u32)>, m: u32) -> nat {
    let space = column_space(primary_area(primary, m), m);
    fitting_count(column_lengths(secondary, space), m as nat, space.h as nat, 0)
}

/// Every area lies within the canvas and at least `m` from its top and left
/// edges, and no two areas overlap.
pub open spec fn placed_apart(areas: Seq<Rectangle>, m: u32) -> bool {
    &&& forall|i: int|
        0 <= i < areas.len() ==> (#[trigger] areas[i]).within(MAX_WIDTH as int, MAX_HEIGHT as int)
            && areas[i].x >= m && areas[i].y >= m
    &&& forall|i: int, j: int|
        0 <= i < j < areas.len() ==> (#[trigger] areas[i]).disjoint(#[trigger] areas[j])
}

/// The single layout's area lies within the canvas, at least the margin
/// from its edges.
pub proof fn lemma_single_areas(primary: (u32, u32), m: u32)
    requires
        primary.0 > 0,
        primary.1 > 0,
        margin_fits(m),
    ensures
        single_areas(primary, m).len() == 1,
        placed_apart(single_areas(primary, m), m),
{
    lemma_fit_preserves_aspect(free_space(m), primary.0, primary.1);
}

/// A row layout has one area per leading secondary that fits, or the
/// centred primary alone; its areas lie apart within the canvas; the row
/// starts one margin below the primary and its areas are one margin apart.
pub proof fn lemma_row_areas(primary: (u32, u32), secondary: Seq<(u32, u32)>, m: u32)
    requires
        primary.0 > 0,
        primary.1 > 0,
        margin_fits(m),
    ensures
        row_band_height(primary_area(primary, m), m) > 0 ==> row_areas(primary, secondary, m).len()
            == 1 + row_fitting(primary, secondary, m),
        row_areas(primary, secondary, m).len() == 1 ==> row_areas(primary, secondary, m)[0]
            == centered(primary_area(primary, m)),
        placed_apart(row_areas(primary, secondary, m), m),
        row_areas(primary, secondary, m).len() > 1 ==> row_areas(primary, secondary, m)[1].y
            == row_areas(primary, secondary, m)[0].bottom() + m,
        forall|i: int|
            1 <= i < row_areas(primary, secondary, m).len() - 1 ==> (#[trigger] row_areas(
                primary,
                secondary,
                m,
            )[i + 1]).x == row_areas(primary, secondary, m)[i].right() + m,
{
    let p = primary_area(primary, m);
    lemma_fit_preserves_aspect(free_space(m), primary.0, primary.1);
    let space = row_space(p, m);
    let ls = row_lengths(secondary, space);
    lemma_strip_offsets(ls, m as nat, space.w as nat);
    let o = strip_offsets(ls, m as nat, space.w as nat);
    let row = row_layout(secondary, space, m);
    let areas = row_areas(primary, secondary, m);
    if row_band_height(p, m) > 0 && row.len() > 0 {
        assert(areas == seq![p] + row);
        assert forall|i: int| 0 <= i < areas.len() implies (#[trigger] areas[i]).within(
            MAX_WIDTH as int,
            MAX_HEIGHT as int,
        ) && areas[i].x >= m && areas[i].y >= m by {
            if i > 0 {
                assert(areas[i] == row[i - 1]);
                assert(o[i - 1] + ls[i - 1] <= space.w);
            }
        }
        assert forall|i: int, j: int| 0 <= i < j < areas.len() implies (#[trigger] areas[i]).disjoint(
            #[trigger] areas[j],
        ) by {
            assert(areas[j] == row[j - 1]);
            if i > 0 {
                assert(areas[i] == row[i - 1]);
                assert(o[i - 1] + ls[i - 1] <= o[j - 1]);
            }
        }
        assert(areas[1] == row[0]);
        assert forall|i: int| 1 <= i < areas.len() - 1 implies (#[trigger] areas[i + 1]).x
            == areas[i].right() + m by {
            assert(areas[i] == row[i - 1]);
            assert(areas[i + 1] == row[i]);
            assert(o[i] == o[i - 1] + ls[i - 1] + m);
            assert(o[i] + ls[i] <= space.w);
        }
    }
}

/// A column layout has one area per leading secondary that fits, or the
/// centred primary alone; its areas lie apart within the canvas; the column
/// starts one margin right of the primary and its areas are one margin apart.
pub proof fn lemma_column_areas(primary: (u32, u32), secondary: Seq<(u32, u32)>, m: u32)
    requires
        primary.0 > 0,
        primary.1 > 0,
        margin_fits(m),
    ensures
        column_band_width(primary_area(primary, m), m) > 0 ==> column_areas(primary, secondary, m).len()
            == 1 + column_fitting(primary, secondary, m),
        column_areas(primary, secondary, m).len() == 1 ==> column_areas(primary, secondary, m)[0]
            == centered(primary_area(primary, m)),
        placed_apart(column_areas(primary, secondary, m), m),
        column_areas(primary, secondary, m).len() > 1 ==> column_areas(primary, secondary, m)[1].x
            == column_areas(primary, secondary, m)[0].right() + m,
        forall|i: int|
            1 <= i < column_areas(primary, secondary, m).len() - 1 ==> (#[trigger] column_areas(
                primary,
                secondary,
                m,
            )[i + 1]).y == column_areas(primary, secondary, m)[i].bottom() + m,
{
    let p = primary_area(primary, m);
    lemma_fit_preserves_aspect(free_space(m), primary.0, primary.1);
    let space = column_space(p, m);
    let ls = column_lengths(secondary, space);
    lemma_strip_offsets(ls, m as nat, space.h as nat);
    let o = strip_offsets(ls, m as nat, space.h as nat);
    let column = column_layout(secondary, space, m);
    let areas = column_areas(primary, secondary, m);
    if column_band_width(p, m) > 0 && column.len() > 0 {
        assert(areas == seq![p] + column);
        assert forall|i: int| 0 <= i < areas.len() implies (#[trigger] areas[i]).within(
            MAX_WIDTH as int,
            MAX_HEIGHT as int,
        ) && areas[i].x >= m && areas[i].y >= m by {
            if i > 0 {
                assert(areas[i] == column[i - 1]);
                assert(o[i - 1] + ls[i - 1] <= space.h);
            }
        }
        assert forall|i: int, j: int| 0 <= i < j < areas.len() implies (#[trigger] areas[i]).disjoint(
            #[trigger] areas[j],
        ) by {
            assert(areas[j] == column[j - 1]);
            if i > 0 {
                assert(areas[i] == column[i - 1]);
                assert(o[i - 1] + ls[i - 1] <= o[j - 1]);
            }
        }
        assert(areas[1] == column[0]);
        assert forall|i: int| 1 <= i < areas.len() - 1 implies (#[trigger] areas[i + 1]).y
            == areas[i].bottom() + m by {
            assert(areas[i] == column[i - 1]);
            assert(areas[i + 1] == column[i]);
            assert(o[i] == o[i - 1] + ls[i - 1] + m);
            assert(o[i] + ls[i] <= space.h);
        }
    }
}

/// The primary fitted into the canvas less margin `m`.
fn fit_primary(primary: (u32, u32), m: u32) -> (r: Rectangle)
    requires
        primary.0 > 0,
        primary.1 > 0,
        margin_fits(m),
    ensures
        r == primary_area(primary, m),
        r.x == m && r.y == m,
        r.w <= MAX_WIDTH - 2 * m,
        r.h <= MAX_HEIGHT - 2 * m,
{
    let free = Rectangle { x: m, y: m, w: MAX_WIDTH - 2 * m, h: MAX_HEIGHT - 2 * m };
    proof {
        lemma_fit_preserves_aspect(free, primary.0, primary.1);
    }
    best_fit_for_dimensions(free, primary.0, primary.1)
}

/// `first` followed by `rest`.
fn prepend(first: Rectangle, rest: &Vec<Rectangle>) -> (r: Vec<Rectangle>)
    ensures
        r@ == seq![first] + rest@,
{
    let mut out: Vec<Rectangle> = Vec::new();
    out.push(first);
    let mut j: usize = 0;
    while j < rest.len()
        invariant
            j <= rest@.len(),
            out@ == seq![first] + rest@.take(j as int),
        decreases rest@.len() - j,
    {
        out.push(rest[j]);
        assert(out@ =~= seq![first] + rest@.take(j + 1));
        j = j + 1;
    }
    assert(rest@.take(rest@.len() as int) =~= rest@);
    out
}

/// One image, maximized within the margins and centred.
pub struct SingleLayout {
    margin: u32,
    primary: (u32, u32),
}

/// A primary image with further images in a column to its right.
pub struct ColumnLayout {
    margin: u32,
    primary: (u32, u32),
    secondary: Vec<(u32, u32)>,
}

/// A primary image with further images in a row below it.
pub struct RowLayout {
    margin: u32,
    primary: (u32, u32),
    secondary: Vec<(u32, u32)>,
}

/// The arrangements a composition can take.
pub enum Layout {
    Single(SingleLayout),
    Column(ColumnLayout),
    Row(RowLayout),
}

impl SingleLayout {
    pub closed spec fn spec_margin(&self) -> u32 {
        self.margin
    }

    /// Size of the primary source image.
    pub closed spec fn spec_primary(&self) -> (u32, u32) {
        self.primary
    }

    pub open spec fn wf(&self) -> bool {
        self.spec_primary().0 > 0 && self.spec_primary().1 > 0 && margin_fits(self.spec_margin())
    }

    pub fn new(primary: (u32, u32)) -> (r: Self)
        ensures
            r.spec_primary() == primary,
            r.spec_margin() == 0,
    {
        Self::new_with_margin(primary, 0)
    }

    pub fn new_with_margin(primary: (u32, u32), margin: u32) -> (r: Self)
        ensures
            r.spec_primary() == primary,
            r.spec_margin() == margin,
    {
        SingleLayout { primary, margin }
    }

    /// The one area of the layout; see `single_areas`.
    pub fn calculate(&self) -> (r: Vec<Rectangle>)
        requires
            self.wf(),
        ensures
            r@ == single_areas(self.spec_primary(), self.spec_margin()),
    {
        let p = fit_primary(self.primary, self.margin);
        only(center_on_canvas(p))
    }
}

impl ColumnLayout {
    pub closed spec fn spec_margin(&self) -> u32 {
        self.margin
    }

    /// Size of the primary source image.
    pub closed spec fn spec_primary(&self) -> (u32, u32) {
        self.primary
    }

    /// Sizes of the secondary source images, in priority order.
    pub closed spec fn spec_secondary(&self) -> Seq<(u32, u32)> {
        self.secondary@
    }

    pub open spec fn wf(&self) -> bool {
        &&& self.spec_primary().0 > 0
        &&& self.spec_primary().1 > 0
        &&& positive_sizes(self.spec_secondary())
        &&& margin_fits(self.spec_margin())
    }

    pub fn new(primary: (u32, u32), secondary: Vec<(u32, u32)>) -> (r: Self)
        ensures
            r.spec_primary() == primary,
            r.spec_secondary() == secondary@,
            r.spec_margin() == 0,
    {
        Self::new_with_margin(primary, secondary, 0)
    }

    pub fn new_with_margin(primary: (u32, u32), secondary: Vec<(u32, u32)>, margin: u32) -> (r: Self)
        ensures
            r.spec_primary() == primary,
            r.spec_secondary() == secondary@,
            r.spec_margin() == margin,
    {
        ColumnLayout { primary, secondary, margin }
    }

    /// The areas of the layout, primary first; see `column_areas`.
    pub fn calculate(&self) -> (r: Vec<Rectangle>)
        requires
            self.wf(),
        ensures
            r@ == column_areas(self.spec_primary(), self.spec_secondary(), self.spec_margin()),
    {
        let m = self.margin;
        let p = fit_primary(self.primary, m);
        let band = MAX_WIDTH as i64 - p.x as i64 - p.w as i64 - 2 * m as i64;
        if band > 0 {
            let space = Rectangle { x: p.x + p.w + m, y: m, w: band as u32, h: p.h };
            let column = place_column(&self.secondary, space, m);
            if column.len() > 0 {
                return prepend(p, &column);
            }
        }
        only(center_on_canvas(p))
    }
}

impl RowLayout {
    pub closed spec fn spec_margin(&self) -> u32 {
        self.margin
    }

    /// Size of the primary source image.
    pub closed spec fn spec_primary(&self) -> (u32, u32) {
        self.primary
    }

    /// Sizes of the secondary source images, in priority order.
    pub closed spec fn spec_secondary(&self) -> Seq<(u32, u32)> {
        self.secondary@
    }

    pub open spec fn wf(&self) -> bool {
        &&& self.spec_primary().0 > 0
        &&& self.spec_primary().1 > 0
        &&& positive_sizes(self.spec_secondary())
        &&& margin_fits(self.spec_margin())
    }

    pub fn new(primary: (u32, u32), secondary: Vec<(u32, u32)>) -> (r: Self)
        ensures
            r.spec_primary() == primary,
            r.spec_secondary() == secondary@,
            r.spec_margin() == 0,
    {
        Self::new_with_margin(primary, secondary, 0)
    }

    pub fn new_with_margin(primary: (u32, u32), secondary: Vec<(u32, u32)>, margin: u32) -> (r: Self)
        ensures
            r.spec_primary() == primary,
            r.spec_secondary() == secondary@,
            r.spec_margin() == margin,
    {
        RowLayout { primary, secondary, margin }
    }

    /// The areas of the layout, primary first; see `row_areas`.
    pub fn calculate(&self) -> (r: Vec<Rectangle>)
        requires
            self.wf(),
        ensures
            r@ == row_areas(self.spec_primary(), self.spec_secondary(), self.spec_margin()),
    {
        let m = self.margin;
        let p = fit_primary(self.primary, m);
        let band = MAX_HEIGHT as i64 - p.y as i64 - p.h as i64 - 2 * m as i64;
        if band > 0 {
            let space = Rectangle { x: m, y: p.y + p.h + m, w: p.w, h: band as u32 };
            let row = place_row(&self.secondary, space, m);
            if row.len() > 0 {
                return prepend(p, &row);
            }
        }
        only(center_on_canvas(p))
    }
}

impl Layout {
    pub open spec fn wf(&self) -> bool {
        match self {
            Layout::Single(l) => l.wf(),
            Layout::Column(l) => l.wf(),
            Layout::Row(l) => l.wf(),
        }
    }

    pub open spec fn areas(&self) -> Seq<Rectangle> {
        match self {
            Layout::Single(l) => single_areas(l.spec_primary(), l.spec_margin()),
            Layout::Column(l) => column_areas(l.spec_primary(), l.spec_secondary(), l.spec_margin()),
            Layout::Row(l) => row_areas(l.spec_primary(), l.spec_secondary(), l.spec_margin()),
        }
    }

    /// The areas of whichever layout this is, primary first.
    pub fn calculate(&self) -> (r: Vec<Rectangle>)
        requires
            self.wf(),
        ensures
            r@ == self.areas(),
    {
        match self {
            Layout::Single(l) => l.calculate(),
            Layout::Column(l) => l.calculate(),
            Layout::Row(l) => l.calculate(),
        }
    }
}

impl From<SingleLayout> for Layout {
    fn from(inner: SingleLayout) -> Self {
        Layout::Single(inner)
    }
}

impl vstd::std_specs::convert::FromSpecImpl<SingleLayout> for Layout {
    open spec fn obeys_from_spec() -> bool {
        true
    }

    open spec fn from_spec(inner: SingleLayout) -> Self {
        Layout::Single(inner)
    }
}

impl From<ColumnLayout> for Layout {
    fn from(inner: ColumnLayout) -> Self {
        Layout::Column(inner)
    }
}

impl vstd::std_specs::convert::FromSpecImpl<ColumnLayout> for Layout {
    open spec fn obeys_from_spec() -> bool {
        true
    }

    open spec fn from_spec(inner: ColumnLayout) -> Self {
        Layout::Column(inner)
    }
}

impl From<RowLayout> for Layout {
    fn from(inner: RowLayout) -> Self {
        Layout::Row(inner)
    }
}

impl vstd::std_specs::convert::FromSpecImpl<RowLayout> for Layout {
    open spec fn obeys_from_spec() -> bool {
        true
    }

    open spec fn from_spec(inner: RowLayout) -> Self {
        Layout::Row(inner)
    }
}

} // verus!
