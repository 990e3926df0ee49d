//! Visual style of a drawing. Colours are 8-bit RGBA, widths and text sizes
//! are in hundredths of a pixel and Fibonacci ratios in thousandths.

use vstd::prelude::*;

verus! {

/// Stroke pattern of a drawing.
#[derive(Clone, Copy, Debug, PartialEq, Eq, Structural)]
pub enum LineStyle {
    Solid,
    Dashed,
    Dotted,
}

/// An 8-bit RGBA colour.
#[derive(Clone, Copy, Debug, PartialEq, Eq, Structural)]
pub struct Rgba8 {
    pub r: u8,
    pub g: u8,
    pub b: u8,
    pub a: u8,
}

/// One level of a Fibonacci tool: its ratio in thousandths and whether it is shown.
#[derive(Clone, Copy, Debug, PartialEq, Eq, Structural)]
pub struct FibLevel {
    pub ratio_milli: i32,
    pub visible: bool,
}

/// Level set of a Fibonacci retracement or extension.
#[derive(Debug)]
pub struct FibonacciConfig {
    pub levels: Vec<FibLevel>,
}

/// Visual style of a drawing.
#[derive(Debug)]
pub struct DrawingStyle {
    pub stroke_color: Rgba8,
    pub stroke_width_centi: u32,
    pub line_style: LineStyle,
    pub fill_color: Option<Rgba8>,
    pub fill_opacity_percent: u8,
    pub show_labels: bool,
    pub text_size_centi: u32,
    pub fibonacci: Option<FibonacciConfig>,
}

/// Mathematical value of a [`DrawingStyle`].
pub struct StyleView {
    pub stroke_color: Rgba8,
    pub stroke_width_centi: u32,
    pub line_style: LineStyle,
    pub fill_color: Option<Rgba8>,
    pub fill_opacity_percent: u8,
    pub show_labels: bool,
    pub text_size_centi: u32,
    pub fibonacci: Option<Seq<FibLevel>>,
}

impl View for DrawingStyle {
    type V = StyleView;

    open spec fn view(&self) -> StyleView {
        StyleView {
            stroke_color: self.stroke_color,
            stroke_width_centi: self.stroke_width_centi,
            line_style: self.line_style,
            fill_color: self.fill_color,
            fill_opacity_percent: self.fill_opacity_percent,
            show_labels: self.show_labels,
            text_size_centi: self.text_size_centi,
            fibonacci: match self.fibonacci {
                Some(cfg) => Some(cfg.levels@),
                None => None,
            },
        }
    }
}

/// Copy of a list of Fibonacci levels.
pub fn copy_levels(levels: &Vec<FibLevel>) -> (r: Vec<FibLevel>)
    ensures
        r@ == levels@,
{
    let mut out: Vec<FibLevel> = Vec::new();
    let mut i: usize = 0;
    while i < levels.len()
        invariant
            i <= levels.len(),
            out@ == levels@.take(i as int),
        decreases levels.len() - i,
    {
        out.push(levels[i]);
        i += 1;
        proof {
            assert(out@ =~= levels@.take(i as int));
        }
    }
    proof {
        assert(levels@.take(levels.len() as int) =~= levels@);
    }
    out
}

impl DrawingStyle {
    /// The style that new drawings get when none was chosen.
    pub open spec fn spec_default() -> StyleView {
        StyleView {
            stroke_color: Rgba8 { r: 41, g: 98, b: 255, a: 255 },
            stroke_width_centi: 150,
            line_style: LineStyle::Solid,
            fill_color: None,
            fill_opacity_percent: 20,
            show_labels: true,
            text_size_centi: 1200,
            fibonacci: None,
        }
    }

    pub fn default() -> (r: DrawingStyle)
        ensures
            r@ == Self::spec_default(),
    {
        DrawingStyle {
            stroke_color: Rgba8 { r: 41, g: 98, b: 255, a: 255 },
            stroke_width_centi: 150,
            line_style: LineStyle::Solid,
            fill_color: None,
            fill_opacity_percent: 20,
            show_labels: true,
            text_size_centi: 1200,
            fibonacci: None,
        }
    }

    /// An independent copy of this style.
    pub fn copy(&self) -> (r: DrawingStyle)
        ensures
            r@ == self@,
    {
        let fibonacci = match &self.fibonacci {
            Some(cfg) => Some(FibonacciConfig { levels: copy_levels(&cfg.levels) }),
            None => None,
        };
        DrawingStyle {
            stroke_color: self.stroke_color,
            stroke_width_centi: self.stroke_width_centi,
            line_style: self.line_style,
            fill_color: self.fill_color,
            fill_opacity_percent: self.fill_opacity_percent,
            show_labels: self.show_labels,
            text_size_centi: self.text_size_centi,
            fibonacci,
        }
    }
}

} // verus!
