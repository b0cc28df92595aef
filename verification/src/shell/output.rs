//! Physical outputs, as the compositor reports them.

use vstd::prelude::*;

use crate::shell::tiling::trunc_div;
use crate::utils::coordinates::GlobalPoint;
use crate::utils::geometry::{clamp_i32, Size};
use crate::utils::text::same_text;

verus! {

/// How an output is rotated and mirrored.
#[derive(Debug, Clone, Copy, PartialEq, Eq, Structural)]
pub enum Transform {
    Normal,
    Rotated90,
    Rotated180,
    Rotated270,
    Flipped,
    Flipped90,
    Flipped180,
    Flipped270,
}

impl Transform {
    /// Whether width and height change places.
    pub open spec fn spec_swaps(self) -> bool {
        self == Transform::Rotated90 || self == Transform::Rotated270 || self
            == Transform::Flipped90 || self == Transform::Flipped270
    }

    /// Whether width and height change places.
    pub fn swaps_axes(self) -> (r: bool)
        ensures
            r == self.spec_swaps(),
    {
        match self {
            Transform::Rotated90 => true,
            Transform::Rotated270 => true,
            Transform::Flipped90 => true,
            Transform::Flipped270 => true,
            _ => false,
        }
    }
}

/// The scale of an output, in 256ths: the unit that it is configured in on the wire.
#[derive(Debug, Clone, Copy, PartialEq, Eq, Structural)]
pub struct Scale(pub i32);

/// A physical length in logical units: divided by the scale and rounded towards zero.
/// A scale of zero gives the largest or smallest coordinate.
pub open spec fn logical_length(v: int, scale: Scale) -> int {
    if scale.0 > 0 {
        clamp_i32(trunc_div(v * 256, scale.0 as int))
    } else if scale.0 < 0 {
        clamp_i32(trunc_div(-(v * 256), -(scale.0 as int)))
    } else if v > 0 {
        i32::MAX as int
    } else if v < 0 {
        i32::MIN as int
    } else {
        0
    }
}

impl Scale {
    /// No scaling.
    pub fn identity() -> (r: Scale)
        ensures
            r == Scale(256),
    {
        Scale(256)
    }

    /// Converts a physical length to logical units.
    pub fn to_logical(self, v: i32) -> (r: i32)
        ensures
            r == logical_length(v as int, self),
    {
        let wide: i64 = v as i64 * 256;
        let (num, den): (i64, i64) = if self.0 > 0 {
            (wide, self.0 as i64)
        } else if self.0 < 0 {
            (-wide, -(self.0 as i64))
        } else {
            return if v > 0 {
                i32::MAX
            } else if v < 0 {
                i32::MIN
            } else {
                0
            };
        };
        let magnitude: i64 = if num >= 0 {
            num
        } else {
            -num
        };
        let quotient: i64 = magnitude / den;
        proof {
            assert(0 <= magnitude / den <= magnitude) by (nonlinear_arith)
                requires
                    magnitude >= 0,
                    den >= 1,
            ;
        }
        let signed: i64 = if num >= 0 {
            quotient
        } else {
            -quotient
        };
        if signed < i32::MIN as i64 {
            i32::MIN
        } else if signed > i32::MAX as i64 {
            i32::MAX
        } else {
            signed as i32
        }
    }
}

/// The nearest whole number to a quotient; of two that are as near, the one further from
/// zero.
pub open spec fn round_div(a: int, b: int) -> int {
    if a >= 0 {
        (2 * a + b) / (2 * b)
    } else {
        -((2 * -a + b) / (2 * b))
    }
}

/// A physical length in logical units: divided by the scale and rounded to the nearest.
pub open spec fn rounded_length(v: int, scale: Scale) -> int {
    if scale.0 > 0 {
        clamp_i32(round_div(v * 256, scale.0 as int))
    } else if scale.0 < 0 {
        clamp_i32(round_div(-(v * 256), -(scale.0 as int)))
    } else if v > 0 {
        i32::MAX as int
    } else if v < 0 {
        i32::MIN as int
    } else {
        0
    }
}

impl Scale {
    /// Converts a physical length to logical units, to the nearest.
    pub fn to_logical_rounded(self, v: i32) -> (r: i32)
        ensures
            r == rounded_length(v as int, self),
    {
        let wide: i64 = v as i64 * 256;
        let (num, den): (i64, i64) = if self.0 > 0 {
            (wide, self.0 as i64)
        } else if self.0 < 0 {
            (-wide, -(self.0 as i64))
        } else {
            return if v > 0 {
                i32::MAX
            } else if v < 0 {
                i32::MIN
            } else {
                0
            };
        };
        let magnitude: i64 = if num >= 0 {
            num
        } else {
            -num
        };
        let doubled: i64 = 2 * magnitude + den;
        let twice: i64 = 2 * den;
        let quotient: i64 = doubled / twice;
        proof {
            assert(0 <= doubled / twice <= doubled) by (nonlinear_arith)
                requires
                    doubled >= 0,
                    twice >= 1,
            ;
        }
        let signed: i64 = if num >= 0 {
            quotient
        } else {
            -quotient
        };
        if signed < i32::MIN as i64 {
            i32::MIN
        } else if signed > i32::MAX as i64 {
            i32::MAX
        } else {
            signed as i32
        }
    }
}

/// At scale one, logical and physical lengths are the same, rounded either way.
pub proof fn law_identity_scale(v: i32)
    ensures
        logical_length(v as int, Scale(256)) == v,
        rounded_length(v as int, Scale(256)) == v,
{
    let a = v * 256;
    if v >= 0 {
        assert((2 * a + 256) / 512 == v);
    } else {
        assert((2 * -a + 256) / 512 == -v);
    }
}

/// A physical output: its identity, its connector name and its current state.
#[derive(Debug)]
pub struct Output {
    pub id: u64,
    pub name: String,
    pub position: GlobalPoint,
    pub mode: Option<Size>,
    pub transform: Transform,
    pub scale: Scale,
}

/// What an output holds.
pub struct OutputView {
    pub id: u64,
    pub name: Seq<char>,
    pub position: GlobalPoint,
    pub mode: Option<Size>,
    pub transform: Transform,
    pub scale: Scale,
}

impl OutputView {
    /// Size that a window is asked to take when it wants to be fullscreen: the mode's, in
    /// logical units, to the nearest.
    pub open spec fn requested_size(self) -> Option<Size> {
        match self.mode {
            Some(mode) => Some(
                Size {
                    w: rounded_length(mode.w as int, self.scale) as i32,
                    h: rounded_length(mode.h as int, self.scale) as i32,
                },
            ),
            None => None,
        }
    }
}

impl View for Output {
    type V = OutputView;

    open spec fn view(&self) -> OutputView {
        OutputView {
            id: self.id,
            name: self.name@,
            position: self.position,
            mode: self.mode,
            transform: self.transform,
            scale: self.scale,
        }
    }
}

/// What a list of outputs holds.
pub open spec fn output_views(outputs: Seq<Output>) -> Seq<OutputView> {
    Seq::new(outputs.len(), |i: int| outputs[i]@)
}

/// The last output of the given name, as its place in the list.
pub open spec fn lookup_output(outputs: Seq<OutputView>, name: Seq<char>) -> Option<int>
    decreases outputs.len(),
{
    if outputs.len() == 0 {
        None
    } else if outputs.last().name == name {
        Some(outputs.len() - 1)
    } else {
        lookup_output(outputs.drop_last(), name)
    }
}

/// Finds an output by name; of several with one name, the last.
pub fn find_output(outputs: &Vec<Output>, name: &str) -> (r: Option<usize>)
    ensures
        match r {
            Some(i) => i < outputs@.len() && lookup_output(output_views(outputs@), name@) == Some(
                i as int,
            ) && outputs@[i as int]@.name == name@,
            None => lookup_output(output_views(outputs@), name@) is None,
        },
{
    let ghost views = output_views(outputs@);
    let mut i: usize = outputs.len();
    assert(views.take(i as int) =~= views);
    while i > 0
        invariant
            i <= outputs@.len(),
            views == output_views(outputs@),
            lookup_output(views, name@) == lookup_output(views.take(i as int), name@),
        decreases i,
    {
        proof {
            assert(views.take(i as int).drop_last() =~= views.take(i - 1));
            assert(views.take(i as int).last() == outputs@[i - 1]@);
        }
        if same_text(outputs[i - 1].name.as_str(), name) {
            return Some(i - 1);
        }
        i = i - 1;
    }
    None
}

/// Size of a window that fills an output: the mode's size after rotation, in logical
/// units.
pub open spec fn fullscreen_size_of(mode: Size, transform: Transform, scale: Scale) -> Size {
    if transform.spec_swaps() {
        Size {
            w: logical_length(mode.h as int, scale) as i32,
            h: logical_length(mode.w as int, scale) as i32,
        }
    } else {
        Size {
            w: logical_length(mode.w as int, scale) as i32,
            h: logical_length(mode.h as int, scale) as i32,
        }
    }
}

impl Output {
    /// Size of a window that fills this output, or `fallback` if the output has no
    /// mode.
    pub fn fullscreen_size(&self, fallback: Size) -> (r: Size)
        ensures
            r == (match self@.mode {
                Some(mode) => fullscreen_size_of(mode, self@.transform, self@.scale),
                None => fallback,
            }),
    {
        match self.mode {
            Some(mode) => {
                if self.transform.swaps_axes() {
                    Size { w: self.scale.to_logical(mode.h), h: self.scale.to_logical(mode.w) }
                } else {
                    Size { w: self.scale.to_logical(mode.w), h: self.scale.to_logical(mode.h) }
                }
            },
            None => fallback,
        }
    }

    /// Size that a window is asked to take when it wants to be fullscreen, if the output has a
    /// mode.
    pub fn requested_size(&self) -> (r: Option<Size>)
        ensures
            r == self@.requested_size(),
    {
        match self.mode {
            Some(mode) => Some(
                Size {
                    w: self.scale.to_logical_rounded(mode.w),
                    h: self.scale.to_logical_rounded(mode.h),
                },
            ),
            None => None,
        }
    }

    /// A copy of the output.
    pub fn duplicate(&self) -> (r: Output)
        ensures
            r@ == self@,
    {
        Output {
            id: self.id,
            name: self.name.clone(),
            position: self.position,
            mode: self.mode,
            transform: self.transform,
            scale: self.scale,
        }
    }
}

/// A length in logical units, times the scale, is the physical length: the largest that does not
/// exceed it where lengths are rounded towards zero, the nearest where they are rounded. A scale
/// of one is 256 of its units.
pub proof fn law_scaled_length(v: int, scale: Scale)
    requires
        scale.0 > 0,
        0 <= v <= i32::MAX,
    ensures
        ({
            let down = logical_length(v, scale);
            let near = rounded_length(v, scale);
            &&& down < i32::MAX ==> down * scale.0 <= v * 256 < (down + 1) * scale.0
            &&& near < i32::MAX ==> 2 * near * scale.0 - scale.0 <= 2 * (v * 256) < 2 * near
                * scale.0 + scale.0
            &&& down >= 0 && near >= 0
        }),
{
    let d = scale.0 as int;
    let a = v * 256;
    let q = a / d;
    let r = (2 * a + d) / (2 * d);
    assert(q * d <= a < (q + 1) * d && q >= 0) by (nonlinear_arith)
        requires
            d > 0,
            a >= 0,
            q == a / d,
    ;
    assert(2 * r * d - d <= 2 * a < 2 * r * d + d && r >= 0) by (nonlinear_arith)
        requires
            d > 0,
            a >= 0,
            r == (2 * a + d) / (2 * d),
    ;
}

/// Lengths on the other side of zero are scaled alike.
pub proof fn law_scaled_opposite(v: int, scale: Scale)
    requires
        scale.0 > 0,
        -i32::MAX <= v <= i32::MAX,
        -i32::MAX <= v * 256 / scale.0 as int <= i32::MAX - 1,
        -i32::MAX <= -v * 256 / scale.0 as int <= i32::MAX - 1,
    ensures
        logical_length(-v, scale) == -logical_length(v, scale),
{
    let d = scale.0 as int;
    let a = v * 256;
    assert((-v) * 256 == -a);
    assert(0int / d == 0) by (nonlinear_arith)
        requires
            d > 0,
    ;
}

/// A window that fills an output has the size of its mode in logical units, rounded down;
/// on an output turned by a quarter, width and height change places. One that wants to be
/// fullscreen is asked to take the size of the mode, rounded to the nearest.
pub proof fn law_fullscreen_size(mode: Size, transform: Transform, scale: Scale, o: OutputView)
    ensures
        ({
            let size = fullscreen_size_of(mode, transform, scale);
            let turned = match transform {
                Transform::Normal => false,
                Transform::Rotated180 => false,
                Transform::Flipped => false,
                Transform::Flipped180 => false,
                _ => true,
            };
            &&& turned ==> size.w == logical_length(mode.h as int, scale) && size.h
                == logical_length(mode.w as int, scale)
            &&& !turned ==> size.w == logical_length(mode.w as int, scale) && size.h
                == logical_length(mode.h as int, scale)
        }),
        o.mode matches Some(m) ==> o.requested_size() is Some && o.requested_size().unwrap().w
            == rounded_length(m.w as int, o.scale) && o.requested_size().unwrap().h
            == rounded_length(m.h as int, o.scale),
        o.mode is None ==> o.requested_size() is None,
{
}

/// An output is found by its name; of several with the name, the last. An output that is not
/// listed is not found.
pub proof fn law_lookup(outputs: Seq<OutputView>, name: Seq<char>, i: int)
    ensures
        0 <= i < outputs.len() && outputs[i].name == name && (forall|j: int|
            i < j < outputs.len() ==> (#[trigger] outputs[j]).name != name) ==> lookup_output(
            outputs,
            name,
        ) == Some(i),
        (forall|j: int| 0 <= j < outputs.len() ==> (#[trigger] outputs[j]).name != name)
            ==> lookup_output(outputs, name) is None,
        lookup_output(outputs, name) matches Some(k) ==> 0 <= k < outputs.len()
            && outputs[k].name == name,
    decreases outputs.len(),
{
    if outputs.len() > 0 {
        let rest = outputs.drop_last();
        law_lookup(rest, name, i);
        assert(outputs[outputs.len() - 1] == outputs.last());
        assert forall|j: int| 0 <= j < rest.len() implies rest[j] == #[trigger] outputs[j] by {}
    }
}

} // verus!
