//! The native style and hit test of the widget window.
use vstd::prelude::*;

use crate::adapters::floating_widget::hit_test::WidgetHitZone;

verus! {

/// The Win32 extended window styles that the widget needs: layered, tool
/// window (no taskbar button) and no activation on click.
pub const WS_EX_LAYERED: isize = 0x0008_0000isize;

pub const WS_EX_TOOLWINDOW: isize = 0x0000_0080isize;

pub const WS_EX_NOACTIVATE: isize = 0x0800_0000isize;

/// The Win32 hit-test answers: the pointer passes through, or hits the client
/// area.
pub const HTTRANSPARENT: isize = -1isize;

pub const HTCLIENT: isize = 1isize;

/// `existing` with the three widget styles added and nothing taken away.
pub fn ensure_layered_style(existing: isize) -> (r: isize)
    ensures
        r == existing | WS_EX_LAYERED | WS_EX_TOOLWINDOW | WS_EX_NOACTIVATE,
{
    existing | WS_EX_LAYERED | WS_EX_TOOLWINDOW | WS_EX_NOACTIVATE
}

/// Outside the circle the pointer passes through; inside it drags.
pub fn hit_zone_to_lresult(zone: WidgetHitZone) -> (r: isize)
    ensures
        zone == WidgetHitZone::Transparent ==> r == HTTRANSPARENT,
        zone == WidgetHitZone::Drag ==> r == HTCLIENT,
{
    match zone {
        WidgetHitZone::Transparent => HTTRANSPARENT,
        WidgetHitZone::Drag => HTCLIENT,
    }
}

/// The UTF-16 code units of one character.
pub open spec fn utf16_units(c: char) -> Seq<u16> {
    let u = c as u32;
    if u < 0x10000 {
        seq![u as u16]
    } else {
        let v = u - 0x10000;
        seq![(0xD800 + v / 0x400) as u16, (0xDC00 + v % 0x400) as u16]
    }
}

/// The UTF-16 encoding of a text.
pub open spec fn utf16_of(s: Seq<char>) -> Seq<u16>
    decreases s.len(),
{
    if s.len() == 0 {
        Seq::empty()
    } else {
        utf16_of(s.drop_last()) + utf16_units(s.last())
    }
}

/// The title as a nul-terminated UTF-16 string, as `FindWindowW` takes it.
pub fn title_to_utf16(title: &str) -> (r: Vec<u16>)
    ensures
        r@ == utf16_of(title@).push(0u16),
{
    let n = title.unicode_len();
    let mut r: Vec<u16> = Vec::new();
    let mut i: usize = 0;
    assert(title@.take(0) =~= Seq::<char>::empty());
    while i < n
        invariant
            n == title@.len(),
            i <= n,
            r@ == utf16_of(title@.take(i as int)),
        decreases n - i,
    {
        let c = title.get_char(i);
        let u = c as u32;
        proof {
            vstd::utf8::char_is_scalar(c);
        }
        let ghost before = r@;
        if u < 0x10000 {
            r.push(u as u16);
        } else {
            let v = u - 0x10000;
            r.push((0xD800 + v / 0x400) as u16);
            r.push((0xDC00 + v % 0x400) as u16);
        }
        assert(r@ =~= before + utf16_units(c));
        assert(title@.take(i + 1).drop_last() =~= title@.take(i as int));
        assert(title@.take(i + 1).last() == c);
        i = i + 1;
    }
    assert(title@.take(i as int) =~= title@);
    r.push(0);
    r
}

/// The widget styles are added and no style that was set is lost; a window
/// that has them already is left as it is.
pub proof fn law_layered_style_keeps_bits(existing: isize)
    ensures
        ((existing | WS_EX_LAYERED | WS_EX_TOOLWINDOW | WS_EX_NOACTIVATE) | WS_EX_LAYERED
            | WS_EX_TOOLWINDOW | WS_EX_NOACTIVATE) == (existing | WS_EX_LAYERED | WS_EX_TOOLWINDOW
            | WS_EX_NOACTIVATE),
        (existing | WS_EX_LAYERED | WS_EX_TOOLWINDOW | WS_EX_NOACTIVATE) & existing == existing,
        (existing | WS_EX_LAYERED | WS_EX_TOOLWINDOW | WS_EX_NOACTIVATE) & WS_EX_LAYERED
            == WS_EX_LAYERED,
        (existing | WS_EX_LAYERED | WS_EX_TOOLWINDOW | WS_EX_NOACTIVATE) & WS_EX_TOOLWINDOW
            == WS_EX_TOOLWINDOW,
        (existing | WS_EX_LAYERED | WS_EX_TOOLWINDOW | WS_EX_NOACTIVATE) & WS_EX_NOACTIVATE
            == WS_EX_NOACTIVATE,
{
    assert(((existing | 0x0008_0000isize | 0x0000_0080isize | 0x0800_0000isize) | 0x0008_0000isize
        | 0x0000_0080isize | 0x0800_0000isize) == (existing | 0x0008_0000isize | 0x0000_0080isize
        | 0x0800_0000isize)) by (bit_vector);
    assert((existing | 0x0008_0000isize | 0x0000_0080isize | 0x0800_0000isize) & existing == existing) by (bit_vector);
    assert((existing | 0x0008_0000isize | 0x0000_0080isize | 0x0800_0000isize) & 0x0008_0000isize == 0x0008_0000isize) by (bit_vector);
    assert((existing | 0x0008_0000isize | 0x0000_0080isize | 0x0800_0000isize) & 0x0000_0080isize == 0x0000_0080isize) by (bit_vector);
    assert((existing | 0x0008_0000isize | 0x0000_0080isize | 0x0800_0000isize) & 0x0800_0000isize == 0x0800_0000isize) by (bit_vector);
}

} // verus!
