//! The cell-drawing capability the engine consumes.  The embedding program
//! implements `Renderer` on its screen or buffer; the engine only ever asks
//! it to put one colored character at one grid coordinate.

use vstd::prelude::*;

verus! {

/// The palette the screens draw with.
#[derive(Clone, Copy, PartialEq, Eq, Structural, Debug)]
pub enum Color {
    White,
    Cyan,
    Magenta,
}

/// A sink for drawn cells.  Nothing is assumed of an implementation: the
/// engine's guarantees concern only its own state, never what a renderer
/// does with the cells handed to it.
pub trait Renderer {
    /// Draw character `c` at column `x`, row `y` in the given color.
    fn put_cell(&mut self, x: u16, y: u16, c: char, color: Color);
}

/// Draw an ASCII text run starting at `(x, y)`; characters that would fall
/// past the drawable coordinate range are dropped.
pub fn draw_text<R: Renderer>(renderer: &mut R, x: u16, y: u16, text: &str, color: Color) {
    let bytes = text.as_bytes();
    let mut i: usize = 0;
    while i < bytes.len()
        decreases bytes.len() - i,
    {
        if i < 65536 {
            let xi = x as usize + i;
            if xi < 65536 {
                renderer.put_cell(xi as u16, y, bytes[i] as char, color);
            }
        }
        i = i + 1;
    }
}

/// Draw a run of raw ASCII bytes starting at `(x, y)`, as `draw_text` does.
pub fn draw_bytes<R: Renderer>(renderer: &mut R, x: u16, y: u16, bytes: &Vec<u8>, color: Color) {
    let mut i: usize = 0;
    while i < bytes.len()
        decreases bytes.len() - i,
    {
        if i < 65536 {
            let xi = x as usize + i;
            if xi < 65536 {
                renderer.put_cell(xi as u16, y, bytes[i] as char, color);
            }
        }
        i = i + 1;
    }
}

/// Append the ASCII bytes of `text` to `buf`.
pub fn push_text(buf: &mut Vec<u8>, text: &str) {
    let bytes = text.as_bytes();
    let mut i: usize = 0;
    while i < bytes.len()
        decreases bytes.len() - i,
    {
        buf.push(bytes[i]);
        i = i + 1;
    }
}

/// Append the decimal digits of `n` to `buf`.
pub fn push_number(buf: &mut Vec<u8>, n: u64) {
    if n == 0 {
        buf.push(48);
        return ;
    }
    let mut digits: Vec<u8> = Vec::new();
    let mut m: u64 = n;
    while m > 0
        decreases m,
    {
        digits.push((m % 10) as u8 + 48);
        m = m / 10;
    }
    let mut i: usize = digits.len();
    while i > 0
        invariant
            i <= digits@.len(),
        decreases i,
    {
        i = i - 1;
        buf.push(digits[i]);
    }
}

} // verus!
