//! The legend of a chart: which series get a line in it, and where the legend box, its text and
//! the sample of each series go. Measuring text and drawing are left to the caller, which hands
//! in what the font gives and draws what comes out.
use vstd::prelude::*;

verus! {

/// Where the legend stands within the plotting area.
#[derive(Debug, Clone, Copy, PartialEq, Eq)]
pub enum SeriesLabelPosition {
    UpperLeft,
    MiddleLeft,
    LowerLeft,
    UpperMiddle,
    MiddleMiddle,
    LowerMiddle,
    UpperRight,
    MiddleRight,
    LowerRight,
    /// The upper-left corner of the legend, in pixels.
    Coordinate(i32, i32),
}

/// The `x` (or `y`) of the legend's corner along one axis: at the start, centred or at the
/// end, 5 pixels from the border.
pub open spec fn place(side: int, label: int, area: int) -> int {
    if side == 0 {
        5
    } else if side == 1 {
        (area - label) / 2
    } else {
        area - label - 5
    }
}

/// Integer division by 2 rounding toward zero, as Rust's `/` does.
pub open spec fn half(v: int) -> int {
    if v >= 0 {
        v / 2
    } else {
        -((-v) / 2)
    }
}

impl SeriesLabelPosition {
    /// The corner of a legend of size `label_dim` in an area of size `area_dim`.
    pub open spec fn corner(self, label_dim: (i32, i32), area_dim: (u32, u32)) -> (int, int) {
        let (lw, lh) = (label_dim.0 as int, label_dim.1 as int);
        let (aw, ah) = (area_dim.0 as int, area_dim.1 as int);
        match self {
            SeriesLabelPosition::Coordinate(x, y) => (x as int, y as int),
            _ => {
                let col = match self {
                    SeriesLabelPosition::UpperLeft | SeriesLabelPosition::MiddleLeft
                    | SeriesLabelPosition::LowerLeft => 0int,
                    SeriesLabelPosition::UpperMiddle | SeriesLabelPosition::MiddleMiddle
                    | SeriesLabelPosition::LowerMiddle => 1int,
                    _ => 2int,
                };
                let row = match self {
                    SeriesLabelPosition::UpperLeft | SeriesLabelPosition::UpperMiddle
                    | SeriesLabelPosition::UpperRight => 0int,
                    SeriesLabelPosition::MiddleLeft | SeriesLabelPosition::MiddleMiddle
                    | SeriesLabelPosition::MiddleRight => 1int,
                    _ => 2int,
                };
                (
                    if col == 1 {
                        half(aw - lw)
                    } else {
                        place(col, lw, aw)
                    },
                    if row == 1 {
                        half(ah - lh)
                    } else {
                        place(row, lh, ah)
                    },
                )
            },
        }
    }

    /// The upper-left corner of a legend of size `label_dim` in an area of size `area_dim`.
    pub fn layout_label_area(&self, label_dim: (i32, i32), area_dim: (u32, u32)) -> (r: (i32, i32))
        requires
            0 <= label_dim.0 && 0 <= label_dim.1,
            area_dim.0 <= i32::MAX && area_dim.1 <= i32::MAX,
            i32::MIN <= area_dim.0 - label_dim.0 - 5,
            i32::MIN <= area_dim.1 - label_dim.1 - 5,
        ensures
            (r.0 as int, r.1 as int) == self.corner(label_dim, area_dim),
    {
        let aw = area_dim.0 as i32;
        let ah = area_dim.1 as i32;
        let x = match self {
            SeriesLabelPosition::UpperLeft | SeriesLabelPosition::MiddleLeft
            | SeriesLabelPosition::LowerLeft => 5,
            SeriesLabelPosition::UpperMiddle | SeriesLabelPosition::MiddleMiddle
            | SeriesLabelPosition::LowerMiddle => (aw - label_dim.0) / 2,
            SeriesLabelPosition::UpperRight | SeriesLabelPosition::MiddleRight
            | SeriesLabelPosition::LowerRight => aw - label_dim.0 - 5,
            SeriesLabelPosition::Coordinate(x, _) => *x,
        };
        let y = match self {
            SeriesLabelPosition::UpperLeft | SeriesLabelPosition::UpperMiddle
            | SeriesLabelPosition::UpperRight => 5,
            SeriesLabelPosition::MiddleLeft | SeriesLabelPosition::MiddleMiddle
            | SeriesLabelPosition::MiddleRight => (ah - label_dim.1) / 2,
            SeriesLabelPosition::LowerLeft | SeriesLabelPosition::LowerMiddle
            | SeriesLabelPosition::LowerRight => ah - label_dim.1 - 5,
            SeriesLabelPosition::Coordinate(_, y) => *y,
        };
        (x, y)
    }
}

/// The style of a chart's legend: its position, the width of the column of series samples,
/// the styles of its border and background (of type `S`), its font (of type `F`) and its
/// margin, in pixels.
#[derive(Debug, Clone, Copy, PartialEq, Eq)]
pub struct SeriesLabelStyle<S, F> {
    pub position: SeriesLabelPosition,
    pub legend_area_size: u32,
    pub border_style: S,
    pub background: S,
    pub label_font: Option<F>,
    pub margin: u32,
}

/// Where a legend goes: the box, and where its text starts.
#[derive(Debug, Clone, Copy, PartialEq, Eq)]
pub struct LabelArea {
    /// The upper-left and lower-right corners of the legend box.
    pub rect: ((i32, i32), (i32, i32)),
    /// Where the text of the legend is placed.
    pub text_origin: (i32, i32),
}

/// A size given in pixels, with negative sizes taken as 0.
pub open spec fn pixels(v: i32) -> u32 {
    if v < 0 {
        0
    } else {
        v as u32
    }
}

/// Whether the legend of a chart has a line for series `i`: it has a label or a sample to
/// draw.
pub open spec fn has_line(labels: Seq<(String, bool)>, i: int) -> bool {
    labels[i].0@.len() > 0 || labels[i].1
}

/// The positions of the series that get a line in the legend, in order.
pub open spec fn kept(labels: Seq<(String, bool)>) -> Seq<usize>
    decreases labels.len(),
{
    if labels.len() == 0 {
        Seq::empty()
    } else {
        let before = kept(labels.drop_last());
        if has_line(labels, labels.len() - 1) {
            before.push((labels.len() - 1) as usize)
        } else {
            before
        }
    }
}

/// Whether a legend of text size `text_dim` with these style values fits the `i32`
/// coordinates in an area of size `area_dim`.
pub open spec fn fits(text_dim: (i32, i32), area_dim: (u32, u32), legend: u32, margin: u32) -> bool {
    &&& 0 <= text_dim.0 && 0 <= text_dim.1
    &&& text_dim.0 + legend + 2 * margin + 5 <= i32::MAX
    &&& text_dim.1 + 2 * margin + 5 <= i32::MAX
    &&& area_dim.0 <= i32::MAX && area_dim.1 <= i32::MAX
    &&& i32::MIN <= area_dim.0 - (text_dim.0 + legend + 2 * margin) - 5
    &&& i32::MIN <= area_dim.1 - (text_dim.1 + 2 * margin) - 5
}

impl<S, F> SeriesLabelStyle<S, F> {
    /// The width of the legend box for text of width `tw`.
    pub open spec fn box_w(self, tw: i32) -> int {
        tw + self.legend_area_size + 2 * self.margin
    }

    /// The height of the legend box for text of height `th`.
    pub open spec fn box_h(self, th: i32) -> int {
        th + 2 * self.margin
    }

    /// Where a legend with text of size `text_dim` goes in an area of size `area_dim`.
    pub open spec fn area_of(self, text_dim: (i32, i32), area_dim: (u32, u32)) -> LabelArea {
        let w = self.box_w(text_dim.0);
        let h = self.box_h(text_dim.1);
        let (x, y) = self.position.corner((w as i32, h as i32), area_dim);
        LabelArea {
            rect: ((x as i32, y as i32), ((x + w) as i32, (y + h) as i32)),
            text_origin: ((x + self.legend_area_size + self.margin) as i32, (y + self.margin) as i32),
        }
    }

    /// A legend at the middle right, with a sample column of 30 pixels, a margin of 10 pixels,
    /// the default font, and `transparent` as the style of its border and background.
    pub fn new(transparent: S) -> (r: Self)
        where
            S: Copy,
        ensures
            r.position == SeriesLabelPosition::MiddleRight,
            r.legend_area_size == 30,
            r.border_style == transparent,
            r.background == transparent,
            r.label_font is None,
            r.margin == 10,
    {
        SeriesLabelStyle {
            position: SeriesLabelPosition::MiddleRight,
            legend_area_size: 30,
            border_style: transparent,
            background: transparent,
            label_font: None,
            margin: 10,
        }
    }

    /// Sets where the legend stands.
    pub fn position(&mut self, pos: SeriesLabelPosition) -> (r: &mut Self)
        ensures
            *r == (SeriesLabelStyle { position: pos, ..*old(self) }),
            *final(self) == *final(r),
    {
        self.position = pos;
        self
    }

    /// Sets the margin, given in pixels; a negative margin is taken as 0.
    pub fn margin(&mut self, value: i32) -> (r: &mut Self)
        ensures
            *r == (SeriesLabelStyle { margin: pixels(value), ..*old(self) }),
            *final(self) == *final(r),
    {
        self.margin = if value < 0 {
            0
        } else {
            value as u32
        };
        self
    }

    /// Sets the width of the column of series samples, given in pixels; a negative size is
    /// taken as 0.
    pub fn legend_area_size(&mut self, size: i32) -> (r: &mut Self)
        ensures
            *r == (SeriesLabelStyle { legend_area_size: pixels(size), ..*old(self) }),
            *final(self) == *final(r),
    {
        self.legend_area_size = if size < 0 {
            0
        } else {
            size as u32
        };
        self
    }

    /// Sets the style of the border.
    pub fn border_style(&mut self, style: S) -> (r: &mut Self)
        ensures
            *r == (SeriesLabelStyle { border_style: style, ..*old(self) }),
            *final(self) == *final(r),
    {
        self.border_style = style;
        self
    }

    /// Sets the style of the background.
    pub fn background_style(&mut self, style: S) -> (r: &mut Self)
        ensures
            *r == (SeriesLabelStyle { background: style, ..*old(self) }),
            *final(self) == *final(r),
    {
        self.background = style;
        self
    }

    /// Sets the font of the labels.
    pub fn label_font(&mut self, font: F) -> (r: &mut Self)
        ensures
            *r == (SeriesLabelStyle { label_font: Some(font), ..*old(self) }),
            *final(self) == *final(r),
    {
        self.label_font = Some(font);
        self
    }

    /// Whether a legend with text of size `text_dim` can be laid out in an area of size
    /// `area_dim` within `i32` pixel coordinates: what [`Self::draw`] requires.
    pub open spec fn layout_ok(self, text_dim: (i32, i32), area_dim: (u32, u32)) -> bool {
        &&& fits(text_dim, area_dim, self.legend_area_size, self.margin)
        &&& self.position matches SeriesLabelPosition::Coordinate(x, y) ==> {
            &&& i32::MIN <= x + self.box_w(text_dim.0) <= i32::MAX
            &&& i32::MIN <= y + self.box_h(text_dim.1) <= i32::MAX
            &&& i32::MIN <= x + self.legend_area_size + self.margin <= i32::MAX
            &&& i32::MIN <= y + self.margin <= i32::MAX
        }
    }

    /// Tests [`Self::layout_ok`].
    pub fn can_layout(&self, text_dim: (i32, i32), area_dim: (u32, u32)) -> (r: bool)
        ensures
            r == self.layout_ok(text_dim, area_dim),
    {
        let max: i64 = 0x7fff_ffff;
        let min: i64 = -0x8000_0000;
        let tw = text_dim.0 as i64;
        let th = text_dim.1 as i64;
        let legend = self.legend_area_size as i64;
        let margin = self.margin as i64;
        let aw = area_dim.0 as i64;
        let ah = area_dim.1 as i64;
        if !(tw >= 0 && th >= 0) {
            return false;
        }
        let w = tw + legend + 2 * margin;
        let h = th + 2 * margin;
        if !(w + 5 <= max && h + 5 <= max && aw <= max && ah <= max && min <= aw - w - 5 && min
            <= ah - h - 5) {
            return false;
        }
        match self.position {
            SeriesLabelPosition::Coordinate(x, y) => {
                let x = x as i64;
                let y = y as i64;
                min <= x + w && x + w <= max && min <= y + h && y + h <= max && min <= x + legend
                    + margin && x + legend + margin <= max && min <= y + margin && y + margin <= max
            },
            _ => true,
        }
    }

    /// Lays out the legend for text of size `text_dim` (what the font gives for the labels
    /// kept) in a plotting area of size `area_dim`. Hands over the font that was set (`None`
    /// where the default font is to be used), which the style then no longer holds.
    pub fn draw(&mut self, text_dim: (i32, i32), area_dim: (u32, u32)) -> (r: (Option<F>, LabelArea))
        requires
            old(self).layout_ok(text_dim, area_dim),
        ensures
            r.0 == old(self).label_font,
            *final(self) == (SeriesLabelStyle { label_font: None::<F>, ..*old(self) }),
            r.1 == old(self).area_of(text_dim, area_dim),
    {
        let font = self.label_font.take();
        let margin = self.margin as i32;
        let w = text_dim.0 + self.legend_area_size as i32 + margin * 2;
        let h = text_dim.1 + margin * 2;
        let (label_x, label_y) = self.position.layout_label_area((w, h), area_dim);
        let area = LabelArea {
            rect: ((label_x, label_y), (label_x + w, label_y + h)),
            text_origin: (label_x + self.legend_area_size as i32 + margin, label_y + margin),
        };
        (font, area)
    }

    /// Whether the samples of the legend's lines can be placed within `i32` pixel coordinates:
    /// what [`Self::legend_positions`] requires.
    pub open spec fn positions_ok(self, area: LabelArea, lines: Seq<((i32, i32), (i32, i32))>) -> bool {
        &&& self.margin <= i32::MAX
        &&& area.rect.0.0 + self.margin <= i32::MAX
        &&& forall|i: int|
            0 <= i < lines.len() ==> i32::MIN <= (#[trigger] lines[i]).0.1 + lines[i].1.1
                <= i32::MAX
    }

    /// Tests [`Self::positions_ok`].
    pub fn can_place(&self, area: LabelArea, lines: &Vec<((i32, i32), (i32, i32))>) -> (r: bool)
        ensures
            r == self.positions_ok(area, lines@),
    {
        if !(self.margin <= 0x7fff_ffff && area.rect.0.0 as i64 + self.margin as i64 <= 0x7fff_ffff) {
            return false;
        }
        let mut i: usize = 0;
        while i < lines.len()
            invariant
                i <= lines@.len(),
                forall|k: int|
                    0 <= k < i ==> i32::MIN <= (#[trigger] lines@[k]).0.1 + lines@[k].1.1
                        <= i32::MAX,
            decreases lines@.len() - i,
        {
            let (top, bottom) = lines[i];
            let sum = top.1 as i64 + bottom.1 as i64;
            if !(-0x8000_0000 <= sum && sum <= 0x7fff_ffff) {
                return false;
            }
            i = i + 1;
        }
        true
    }

    /// Where the sample of each series goes, given the line boxes of the legend's text (each
    /// the upper-left and lower-right corner of a line) and the legend's area.
    pub fn legend_positions(&self, area: LabelArea, lines: &Vec<((i32, i32), (i32, i32))>) -> (r: Vec<
        (i32, i32),
    >)
        requires
            self.positions_ok(area, lines@),
        ensures
            r@.len() == lines@.len(),
            forall|i: int|
                0 <= i < lines@.len() ==> (#[trigger] r@[i]).0 == area.rect.0.0 + self.margin
                    && r@[i].1 == half(lines@[i].0.1 + lines@[i].1.1),
    {
        let x = area.rect.0.0 + self.margin as i32;
        let mut r: Vec<(i32, i32)> = Vec::new();
        let mut i: usize = 0;
        while i < lines.len()
            invariant
                i <= lines@.len(),
                r@.len() == i,
                x == area.rect.0.0 + self.margin,
                forall|k: int|
                    0 <= k < lines@.len() ==> i32::MIN <= (#[trigger] lines@[k]).0.1
                        + lines@[k].1.1 <= i32::MAX,
                forall|k: int|
                    0 <= k < i ==> (#[trigger] r@[k]).0 == x && r@[k].1 == half(
                        lines@[k].0.1 + lines@[k].1.1,
                    ),
            decreases lines@.len() - i,
        {
            let (top, bottom) = lines[i];
            r.push((x, (top.1 + bottom.1) / 2));
            i = i + 1;
        }
        r
    }
}

/// The positions of the series that get a line in the legend: those with a label or a sample
/// to draw, in order. Each series is given by its label and whether it has a sample.
pub fn kept_labels(labels: &Vec<(String, bool)>) -> (r: Vec<usize>)
    ensures
        r@ == kept(labels@),
{
    let mut r: Vec<usize> = Vec::new();
    let mut i: usize = 0;
    assert(labels@.take(0) =~= Seq::<(String, bool)>::empty());
    while i < labels.len()
        invariant
            i <= labels@.len(),
            r@ == kept(labels@.take(i as int)),
        decreases labels@.len() - i,
    {
        let (text, sample) = &labels[i];
        assert(labels@.take(i + 1).drop_last() =~= labels@.take(i as int));
        assert(has_line(labels@.take(i + 1), i as int) == has_line(labels@, i as int));
        if !text.as_str().is_empty() || *sample {
            r.push(i);
        }
        i = i + 1;
    }
    assert(labels@.take(i as int) =~= labels@);
    r
}

/// Where the legend's corner goes, for a legend of size `(lw, lh)` in an area of size
/// `(aw, ah)`: positions on the left put it 5 pixels from the left border, those on the right 5
/// pixels from the right border (its right edge at `aw - 5`), and those in the middle centre it;
/// likewise upper positions put it 5 pixels from the top, lower ones 5 pixels from the bottom.
/// So, where the legend is narrower than the area less 10 pixels, left lies before middle, and
/// middle before right.
pub proof fn law_legend_corners(label_dim: (i32, i32), area_dim: (u32, u32))
    ensures
        ({
            let (lw, lh) = (label_dim.0 as int, label_dim.1 as int);
            let (aw, ah) = (area_dim.0 as int, area_dim.1 as int);
            &&& SeriesLabelPosition::UpperLeft.corner(label_dim, area_dim) == (5int, 5int)
            &&& SeriesLabelPosition::MiddleLeft.corner(label_dim, area_dim) == (5int, half(ah - lh))
            &&& SeriesLabelPosition::LowerLeft.corner(label_dim, area_dim) == (5int, ah - lh - 5)
            &&& SeriesLabelPosition::UpperMiddle.corner(label_dim, area_dim) == (half(aw - lw), 5int)
            &&& SeriesLabelPosition::MiddleMiddle.corner(label_dim, area_dim) == (
                half(aw - lw),
                half(ah - lh),
            )
            &&& SeriesLabelPosition::LowerMiddle.corner(label_dim, area_dim) == (
                half(aw - lw),
                ah - lh - 5,
            )
            &&& SeriesLabelPosition::UpperRight.corner(label_dim, area_dim) == (aw - lw - 5, 5int)
            &&& SeriesLabelPosition::MiddleRight.corner(label_dim, area_dim) == (
                aw - lw - 5,
                half(ah - lh),
            )
            &&& SeriesLabelPosition::LowerRight.corner(label_dim, area_dim) == (
                aw - lw - 5,
                ah - lh - 5,
            )
            &&& lw + 10 <= aw ==> 5 <= half(aw - lw) <= aw - lw - 5
        }),
        forall|x: i32, y: i32|
            SeriesLabelPosition::Coordinate(x, y).corner(label_dim, area_dim) == (x as int, y as int),
{
}

} // verus!
