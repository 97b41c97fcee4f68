//! QR codes as pictures.

use crate::text::{decimal, push_decimal};
use vstd::prelude::*;
use vstd::string::*;

verus! {

/// The white border around a code, in modules.
pub const QUIET: usize = 4;

/// A QR code: its width, and which of its modules are dark, row by row.
#[derive(Clone, Debug, PartialEq, Eq)]
pub struct QrMatrix {
    pub width: usize,
    pub dark: Vec<bool>,
}

/// The QR code of some data, as its width and its dark modules, or why it has
/// none.
pub uninterp spec fn qr_code_of(data: Seq<u8>) -> Result<(int, Seq<bool>), Seq<char>>;

/// `QrCode::new`, `width` and `to_colors`: the code of some data, or the text of
/// the error. A code is square, with at least one and at most 177 modules on a
/// side.
#[verifier::external_body]
fn qr_encode(data: &[u8]) -> (r: Result<QrMatrix, String>)
    ensures
        match r {
            Ok(m) => qr_code_of(data@) == Ok::<(int, Seq<bool>), Seq<char>>(
                (m.width as int, m.dark@),
            ) && 0 < m.width <= 177 && m.dark@.len() == m.width * m.width,
            Err(e) => qr_code_of(data@) == Err::<(int, Seq<bool>), Seq<char>>(e@),
        },
{
    match qrcode::QrCode::new(data) {
        Ok(code) => Ok(
            QrMatrix {
                width: code.width(),
                dark: code.to_colors().into_iter().map(|c| c == qrcode::Color::Dark).collect(),
            },
        ),
        Err(e) => Err(e.to_string()),
    }
}

/// One module as a square, shifted by the border.
pub open spec fn square_path(x: int, y: int) -> Seq<char> {
    "M"@ + decimal((x + QUIET) as nat) + " "@ + decimal((y + QUIET) as nat) + "h1v1h-1z"@
}

/// The dark ones of the first `k` modules, row by row.
pub open spec fn dark_path(width: int, dark: Seq<bool>, k: int) -> Seq<char>
    decreases k,
{
    if k <= 0 {
        Seq::empty()
    } else if dark[k - 1] {
        dark_path(width, dark, k - 1) + square_path((k - 1) % width, (k - 1) / width)
    } else {
        dark_path(width, dark, k - 1)
    }
}

/// The picture of a code: a white square with the dark modules on it.
pub open spec fn svg_text(width: int, dark: Seq<bool>) -> Seq<char> {
    let dim = decimal((width + 2 * QUIET) as nat);
    "<svg xmlns=\"http://www.w3.org/2000/svg\" viewBox=\"0 0 "@ + dim + " "@ + dim
        + "\" shape-rendering=\"crispEdges\" role=\"img\" aria-label=\"QR code\"><rect width=\""@
        + dim + "\" height=\""@ + dim + "\" fill=\"#ffffff\"/><path d=\""@ + dark_path(
        width,
        dark,
        dark.len() as int,
    ) + "\" fill=\"#000000\"/></svg>"@
}

/// The picture of a code.
pub fn render_svg(m: &QrMatrix) -> (r: String)
    requires
        0 < m.width <= 177,
        m.dark@.len() == m.width * m.width,
    ensures
        r@ == svg_text(m.width as int, m.dark@),
{
    let n: usize = m.width;
    let mut path = String::new();
    let mut k: usize = 0;
    let mut x: usize = 0;
    let mut y: usize = 0;
    proof {
        assert(n * n <= 177 * 177) by (nonlinear_arith)
            requires
                0 < n <= 177,
        ;
    }
    while k < m.dark.len()
        invariant
            n == m.width,
            0 < n <= 177,
            m.dark@.len() == n * n,
            n * n <= 177 * 177,
            k <= m.dark.len(),
            x < n,
            y <= k,
            k == y * n + x,
            path@ == dark_path(n as int, m.dark@, k as int),
        decreases m.dark.len() - k,
    {
        proof {
            vstd::arithmetic::div_mod::lemma_fundamental_div_mod_converse(
                k as int,
                n as int,
                y as int,
                x as int,
            );
        }
        if m.dark[k] {
            let ghost before = path@;
            path.append("M");
            push_decimal(&mut path, (x + QUIET) as u64);
            path.append(" ");
            push_decimal(&mut path, (y + QUIET) as u64);
            path.append("h1v1h-1z");
            assert(path@ =~= before + square_path(x as int, y as int));
        }
        k += 1;
        x += 1;
        if x == n {
            assert((y + 1) * n == y * n + n) by (nonlinear_arith);
            x = 0;
            y += 1;
        }
    }
    let dim: u64 = (n + 2 * QUIET) as u64;
    let mut r = String::new();
    r.append("<svg xmlns=\"http://www.w3.org/2000/svg\" viewBox=\"0 0 ");
    push_decimal(&mut r, dim);
    r.append(" ");
    push_decimal(&mut r, dim);
    r.append(
        "\" shape-rendering=\"crispEdges\" role=\"img\" aria-label=\"QR code\"><rect width=\"",
    );
    push_decimal(&mut r, dim);
    r.append("\" height=\"");
    push_decimal(&mut r, dim);
    r.append("\" fill=\"#ffffff\"/><path d=\"");
    r.append(path.as_str());
    r.append("\" fill=\"#000000\"/></svg>");
    assert(r@ =~= svg_text(n as int, m.dark@));
    r
}

/// The picture of the QR code of a text.
pub fn qr_svg(data: &str) -> (r: Result<String, String>)
    ensures
        match qr_code_of(data.spec_bytes()) {
            Ok(c) => r matches Ok(s) && s@ == svg_text(c.0, c.1),
            Err(e) => r matches Err(t) && t@ == "encode QR: "@ + e,
        },
{
    match qr_encode(data.as_bytes()) {
        Ok(m) => Ok(render_svg(&m)),
        Err(e) => {
            let mut t = String::new();
            t.append("encode QR: ");
            t.append(e.as_str());
            assert(t@ =~= "encode QR: "@ + e@);
            Err(t)
        },
    }
}

/// A dark module is drawn at its column and row, four to the right and four down, and
/// a light one is not drawn.
pub proof fn modules_are_drawn_in_their_place(width: int, dark: Seq<bool>, k: int)
    requires
        0 < width,
        0 <= k < dark.len(),
    ensures
        dark[k] ==> dark_path(width, dark, k + 1) == dark_path(width, dark, k) + ("M"@ + decimal(
            (k % width + 4) as nat,
        ) + " "@ + decimal((k / width + 4) as nat) + "h1v1h-1z"@),
        !dark[k] ==> dark_path(width, dark, k + 1) == dark_path(width, dark, k),
{
}

} // verus!
