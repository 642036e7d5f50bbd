//! QR codes for a terminal, drawn with half blocks. The colours are set, so
//! that dark modules are dark whatever the theme of the terminal.
use qrcode::{Color, EcLevel, QrCode};
use vstd::prelude::*;
use vstd::utf8::encode_utf8;

use crate::error;
use crate::error::{AppError, AppResult, ErrorView};
use crate::text;

verus! {

/// The QR code of some bytes at error correction level M, as `qrcode` makes it:
/// its width and whether each module is dark, row by row; or why there is none.
pub uninterp spec fn qr_modules(data: Seq<u8>) -> Result<(nat, Seq<bool>), Seq<char>>;

/// `QrCode::with_error_correction_level`, `QrCode::width` and
/// `QrCode::to_colors`: the modules of the code, row by row. A code is a square
/// of 21 to 177 modules.
#[verifier::external_body]
pub(crate) fn encode_qr(data: &[u8]) -> (out: Result<(usize, Vec<bool>), String>)
    ensures
        match out {
            Ok((width, dark)) => {
                &&& qr_modules(data@) == Ok::<(nat, Seq<bool>), Seq<char>>((width as nat, dark@))
                &&& 21 <= width <= 177
                &&& dark@.len() == width * width
            },
            Err(e) => qr_modules(data@) == Err::<(nat, Seq<bool>), Seq<char>>(e@),
        },
{
    match QrCode::with_error_correction_level(data, EcLevel::M) {
        Ok(code) => Ok((code.width(), code.to_colors().into_iter().map(|c| match c {
            Color::Dark => true,
            Color::Light => false,
        }).collect())),
        Err(e) => Err(e.to_string()),
    }
}

/// The width of the blank margin, in modules.
pub const MARGIN: usize = 2;

/// Whether the place at column `x` and row `y` of the drawing is dark. The
/// margin is blank.
pub open spec fn is_dark(width: int, dark: Seq<bool>, x: int, y: int) -> bool {
    let (mx, my) = (x - MARGIN, y - MARGIN);
    0 <= mx < width && 0 <= my < width && dark[my * width + mx]
}

/// The half block for a place and the one below it.
pub open spec fn block(top: bool, bottom: bool) -> char {
    if top && bottom {
        '█'
    } else if top {
        '▀'
    } else if bottom {
        '▄'
    } else {
        ' '
    }
}

/// A line of the drawing, which shows the rows `2 * k` and `2 * k + 1`.
pub open spec fn drawn_line(width: int, dark: Seq<bool>, k: int) -> Seq<char> {
    Seq::new(
        (width + 2 * MARGIN) as nat,
        |x: int|
            block(is_dark(width, dark, x, 2 * k), is_dark(width, dark, x, 2 * k + 1)),
    )
}

/// The number of lines of the drawing.
pub open spec fn line_count(width: int) -> int {
    (width + 2 * MARGIN + 1) / 2
}

/// The first `n` lines of the drawing, with a line feed between them.
pub open spec fn drawn_lines(width: int, dark: Seq<bool>, n: int) -> Seq<char>
    decreases n,
{
    if n <= 0 {
        Seq::empty()
    } else if n == 1 {
        drawn_line(width, dark, 0)
    } else {
        drawn_lines(width, dark, n - 1).push('\n') + drawn_line(width, dark, n - 1)
    }
}

/// The drawing: black on white, and the colours of the terminal again.
pub open spec fn drawing(width: int, dark: Seq<bool>) -> Seq<char> {
    "\x1b[30;47m"@ + drawn_lines(width, dark, line_count(width)) + "\x1b[0m"@
}

proof fn lemma_module_index(width: int, mx: int, my: int)
    requires
        0 <= mx < width,
        0 <= my < width,
    ensures
        0 <= my * width,
        my * width + mx < width * width,
{
    assert(0 <= my * width && my * width + width <= width * width) by (nonlinear_arith)
        requires
            0 <= my < width,
    ;
}

fn dark_at(width: usize, dark: &Vec<bool>, x: usize, y: usize) -> (r: bool)
    requires
        width <= 177,
        dark.len() == width * width,
        x <= 1000,
        y <= 1000,
    ensures
        r == is_dark(width as int, dark@, x as int, y as int),
{
    if x < MARGIN || y < MARGIN || x - MARGIN >= width || y - MARGIN >= width {
        return false;
    }
    let mx: usize = x - MARGIN;
    let my: usize = y - MARGIN;
    proof {
        lemma_module_index(width as int, mx as int, my as int);
    }
    dark[my * width + mx]
}

fn draw_line(width: usize, dark: &Vec<bool>, k: usize) -> (out: String)
    requires
        width <= 177,
        dark.len() == width * width,
        k <= 400,
    ensures
        out@ == drawn_line(width as int, dark@, k as int),
{
    let total: usize = width + 2 * MARGIN;
    let mut out = String::new();
    for x in 0..total
        invariant
            width <= 177,
            dark.len() == width * width,
            k <= 400,
            total == width + 2 * MARGIN,
            out@ == drawn_line(width as int, dark@, k as int).take(x as int),
    {
        let top = dark_at(width, dark, x, 2 * k);
        let bottom = dark_at(width, dark, x, 2 * k + 1);
        out.push(
            if top && bottom {
                '█'
            } else if top {
                '▀'
            } else if bottom {
                '▄'
            } else {
                ' '
            },
        );
    }
    out
}

/// Draws the modules of a QR code.
pub fn draw(width: usize, dark: &Vec<bool>) -> (out: String)
    requires
        width <= 177,
        dark.len() == width * width,
    ensures
        out@ == drawing(width as int, dark@),
{
    let mut out = "\x1b[30;47m".to_owned();
    let n: usize = (width + 2 * MARGIN + 1) / 2;
    let ghost start = out@;
    assert(start + drawn_lines(width as int, dark@, 0) == start);
    for k in 0..n
        invariant
            width <= 177,
            dark.len() == width * width,
            n == line_count(width as int),
            n <= 400,
            out@ == start + drawn_lines(width as int, dark@, k as int),
    {
        let ghost before = drawn_lines(width as int, dark@, k as int);
        if k > 0 {
            out.push('\n');
            assert(out@ == start + before.push('\n'));
        }
        let line = draw_line(width, dark, k);
        out.push_str(line.as_str());
        assert(out@ == start + drawn_lines(width as int, dark@, k + 1));
    }
    out.push_str("\x1b[0m");
    out
}

pub struct AdminQrRequest {
    pub text: String,
}

#[derive(Debug)]
pub struct AdminQrResponse {
    pub modules: usize,
    pub qr: String,
}

impl View for AdminQrResponse {
    type V = (nat, Seq<char>);

    open spec fn view(&self) -> (nat, Seq<char>) {
        (self.modules as nat, self.qr@)
    }
}

/// What a text that is drawn leads to, given its code.
pub open spec fn qr_drawn(code: Result<(nat, Seq<bool>), Seq<char>>) -> Result<
    (nat, Seq<char>),
    ErrorView,
> {
    match code {
        Ok(c) => Ok((c.0, drawing(c.0 as int, c.1))),
        Err(e) => Err(ErrorView::BadRequest("qr encode failed: "@ + e)),
    }
}

/// What a text that is to be drawn leads to.
pub open spec fn qr_outcome(text: Seq<char>) -> Result<(nat, Seq<char>), ErrorView> {
    let t = text::trimmed(text);
    if t.len() == 0 || encode_utf8(t).len() > 512 {
        Err(ErrorView::BadRequest("text must be 1-512 bytes"@))
    } else {
        qr_drawn(qr_modules(encode_utf8(t)))
    }
}

/// Draws a text of up to 512 bytes as a QR code.
pub fn admin_qr_handler(req: &AdminQrRequest) -> (res: AppResult<AdminQrResponse>)
    ensures
        error::viewed(res) == qr_outcome(req.text@),
        ({
            let shown = text::trimmed(req.text@);
            let bytes = encode_utf8(shown);
            if shown.len() == 0 || bytes.len() > 512 {
                res matches Err(AppError::BadRequest(m)) && m@ == "text must be 1-512 bytes"@
            } else {
                match qr_modules(bytes) {
                    Ok((width, dark)) => res is Ok && res->Ok_0.modules == width && res->Ok_0.qr@
                        == drawing(width as int, dark),
                    Err(e) => res matches Err(AppError::BadRequest(m)) && m@
                        == "qr encode failed: "@ + e,
                }
            }
        }),
{
    let t = text::trim(req.text.as_str());
    if t.as_str().is_empty() || text::byte_len(t.as_str()) > 512 {
        return Err(AppError::BadRequest("text must be 1-512 bytes".to_owned()));
    }
    match encode_qr(t.as_str().as_bytes()) {
        Ok((width, dark)) => {
            let qr = draw(width, &dark);
            Ok(AdminQrResponse { modules: width, qr })
        },
        Err(e) => {
            let mut m = "qr encode failed: ".to_owned();
            m.push_str(e.as_str());
            Err(AppError::BadRequest(m))
        },
    }
}

/// The drawing shows every module where it is: the half of the block at its
/// place is dark exactly where the module is.
pub proof fn law_drawing_shows_every_module(width: int, dark: Seq<bool>, mx: int, my: int)
    requires
        0 <= mx < width,
        0 <= my < width,
    ensures
        ({
            let (x, y) = (mx + MARGIN, my + MARGIN);
            let c = drawn_line(width, dark, y / 2)[x];
            let upper = c == '█' || c == '▀';
            let lower = c == '█' || c == '▄';
            &&& 0 <= y / 2 < line_count(width)
            &&& (if y % 2 == 0 {
                upper
            } else {
                lower
            }) == dark[my * width + mx]
        }),
{
    let (x, y) = (mx + MARGIN, my + MARGIN);
    let k = y / 2;
    assert(y == 2 * k || y == 2 * k + 1);
}

/// The margin is blank: two columns and two rows on each side.
pub proof fn law_margin_is_blank(width: int, dark: Seq<bool>, x: int, y: int)
    requires
        x < MARGIN || y < MARGIN || x >= width + MARGIN || y >= width + MARGIN,
    ensures
        !is_dark(width, dark, x, y),
{
}

/// What is drawn is the QR code of exactly the text, without the white space
/// around it: of its bytes as they are, where there are 1 to 512 of them.
pub proof fn law_text_is_drawn_as_it_is(before: Seq<char>, shown: Seq<char>, behind: Seq<char>)
    requires
        shown.len() > 0,
        encode_utf8(shown).len() <= 512,
        !text::is_space(shown[0]),
        !text::is_space(shown.last()),
        forall|i: int| 0 <= i < before.len() ==> text::is_space(#[trigger] before[i]),
        forall|i: int| 0 <= i < behind.len() ==> text::is_space(#[trigger] behind[i]),
    ensures
        match qr_modules(encode_utf8(shown)) {
            Ok((width, dark)) => qr_outcome(before + shown + behind) == Ok::<
                (nat, Seq<char>),
                ErrorView,
            >((width, drawing(width as int, dark))),
            Err(e) => qr_outcome(before + shown + behind) == Err::<(nat, Seq<char>), ErrorView>(
                ErrorView::BadRequest("qr encode failed: "@ + e),
            ),
        },
{
    text::law_trimming_leaves_the_middle(before, shown, behind);
}

/// Nothing but white space is not drawn, and neither are more than 512 bytes.
pub proof fn law_only_short_texts_are_drawn(text: Seq<char>)
    requires
        text::trimmed(text).len() == 0 || encode_utf8(text::trimmed(text)).len() > 512,
    ensures
        qr_outcome(text) == Err::<(nat, Seq<char>), ErrorView>(
            ErrorView::BadRequest("text must be 1-512 bytes"@),
        ),
{
}

proof fn lemma_drawn_lines(width: int, dark: Seq<bool>, n: int, k: int)
    requires
        width > 0,
        0 <= k < n,
    ensures
        drawn_lines(width, dark, n).len() == n * (width + 5) - 1,
        drawn_lines(width, dark, n).subrange(k * (width + 5), k * (width + 5) + width + 4)
            == drawn_line(width, dark, k),
        k + 1 < n ==> drawn_lines(width, dark, n)[k * (width + 5) + width + 4] == '\n',
    decreases n,
{
    let w = width + 5;
    let line = drawn_line(width, dark, n - 1);
    assert(line.len() == width + 4);
    if n == 1 {
        assert(k * w == 0) by (nonlinear_arith)
            requires
                k == 0,
        ;
        assert(drawn_lines(width, dark, n).subrange(0, width + 4) =~= line);
    } else {
        let before = drawn_lines(width, dark, n - 1);
        let all = drawn_lines(width, dark, n);
        lemma_drawn_lines(width, dark, n - 1, if k < n - 1 {
            k
        } else {
            0
        });
        assert((n - 1) * w + w == n * w) by (nonlinear_arith);
        if k == n - 1 {
            assert(all.subrange(k * w, k * w + width + 4) =~= line);
        } else {
            assert(k * w + w <= (n - 1) * w && k * w >= 0) by (nonlinear_arith)
                requires
                    0 <= k < n - 1,
                    w > 0,
            ;
            assert(all.subrange(k * w, k * w + width + 4) =~= before.subrange(
                k * w,
                k * w + width + 4,
            ));
            if k + 1 < n - 1 {
                assert(k * w + w + w <= (n - 1) * w) by (nonlinear_arith)
                    requires
                        k + 2 <= n - 1,
                        w > 0,
                ;
                assert(all[k * w + width + 4] == before[k * w + width + 4]);
            } else {
                assert(k * w + w == (n - 1) * w) by (nonlinear_arith)
                    requires
                        k + 1 == n - 1,
                ;
            }
        }
    }
}

/// The drawing is black on white, holds its lines one below the other, as many as
/// the code needs with a margin of two modules on each side, and sets the colours
/// back.
pub proof fn law_drawing_holds_its_lines(width: int, dark: Seq<bool>, k: int)
    requires
        width > 0,
        0 <= k,
        2 * k < width + 4,
    ensures
        ({
            let d = drawing(width, dark);
            let front = "\x1b[30;47m"@;
            let at = front.len() + k * (width + 5);
            &&& front.is_prefix_of(d)
            &&& d.subrange(d.len() - "\x1b[0m"@.len(), d.len() as int) == "\x1b[0m"@
            &&& d.subrange(at, at + width + 4) == drawn_line(width, dark, k)
            &&& 2 * (k + 1) < width + 4 ==> d[at + width + 4] == '\n'
            &&& d.len() == front.len() + ((width + 5) / 2) * (width + 5) - 1 + "\x1b[0m"@.len()
        }),
{
    let d = drawing(width, dark);
    let front = "\x1b[30;47m"@;
    let n = line_count(width);
    assert(n == (width + 5) / 2);
    let body = drawn_lines(width, dark, n);
    lemma_drawn_lines(width, dark, n, k);
    let w = width + 5;
    let at = k * w;
    assert(k * w + w <= n * w && k * w >= 0) by (nonlinear_arith)
        requires
            0 <= k < n,
            w > 0,
    ;
    assert(front =~= d.subrange(0, front.len() as int));
    assert(d.subrange(d.len() - "\x1b[0m"@.len(), d.len() as int) =~= "\x1b[0m"@);
    assert(d.subrange(front.len() + at, front.len() + at + width + 4) =~= body.subrange(
        at,
        at + width + 4,
    ));
    if k + 1 < n {
        assert(k * w + w + w <= n * w) by (nonlinear_arith)
            requires
                k + 2 <= n,
                w > 0,
        ;
        assert(d[front.len() + at + width + 4] == body[at + width + 4]);
    }
}

/// Only four characters are drawn: a full block, an upper half, a lower half and a
/// blank, which is drawn where both halves are light.
pub proof fn law_drawing_uses_half_blocks(width: int, dark: Seq<bool>, k: int, x: int)
    requires
        0 <= x < width + 4,
    ensures
        ({
            let c = drawn_line(width, dark, k)[x];
            let (top, bottom) = (
                is_dark(width, dark, x, 2 * k),
                is_dark(width, dark, x, 2 * k + 1),
            );
            &&& drawn_line(width, dark, k).len() == (width + 4) as nat
            &&& top && bottom ==> c == '█'
            &&& top && !bottom ==> c == '▀'
            &&& !top && bottom ==> c == '▄'
            &&& !top && !bottom ==> c == ' '
        }),
        forall|px: int, py: int|
            #[trigger] is_dark(width, dark, px, py) <==> 2 <= px < width + 2 && 2 <= py < width + 2
                && dark[(py - 2) * width + (px - 2)],
{
}

} // verus!
