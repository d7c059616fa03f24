//! Assembling rendered sections, choosing what to draw, and reacting to input.
use vstd::prelude::*;
use crate::options::{ImageSize, Parameters};
use crate::raster::{
    black_canvas, fits_in_memory, image_dimensions, image_pixels, image_size, in_bounds, new_image, pixel_at,
    set_pixel, Px, RgbBuffer,
};

verus! {

/// A rendered section of the picture and where its top-left corner goes.
pub struct ImgSec {
    pub buf: RgbBuffer,
    pub x: u32,
    pub y: u32,
}

/// Whether `p` lies in the `w` by `h` rectangle whose top-left corner is `(ox, oy)`.
pub open spec fn in_rect(p: (u32, u32), ox: u32, oy: u32, w: u32, h: u32) -> bool {
    ox <= p.0 < ox + w && oy <= p.1 < oy + h
}

/// `base` with the `sw` by `sh` pixels of `sec` copied to offset `(ox, oy)`.
pub open spec fn paste(
    base: Map<(u32, u32), Px>,
    sec: Map<(u32, u32), Px>,
    sw: u32,
    sh: u32,
    ox: u32,
    oy: u32,
) -> Map<(u32, u32), Px> {
    Map::new(
        |p: (u32, u32)| base.dom().contains(p),
        |p: (u32, u32)|
            if in_rect(p, ox, oy, sw, sh) {
                sec[((p.0 - ox) as u32, (p.1 - oy) as u32)]
            } else {
                base[p]
            },
    )
}

/// `base` with one section copied in.
pub open spec fn paste_section(base: Map<(u32, u32), Px>, s: ImgSec) -> Map<(u32, u32), Px> {
    paste(
        base,
        image_pixels(s.buf),
        image_dimensions(s.buf).0,
        image_dimensions(s.buf).1,
        s.x,
        s.y,
    )
}

/// `base` with the sections copied in one after another, later ones over earlier ones.
pub open spec fn paste_all(base: Map<(u32, u32), Px>, secs: Seq<ImgSec>) -> Map<(u32, u32), Px>
    decreases secs.len(),
{
    if secs.len() == 0 {
        base
    } else {
        paste_section(paste_all(base, secs.drop_last()), secs.last())
    }
}

/// Whether every pixel of a section lands inside a `w` by `h` image (a section
/// without pixels lands nowhere, wherever its offset).
pub open spec fn section_fits(s: ImgSec, w: u32, h: u32) -> bool {
    image_dimensions(s.buf).0 == 0 || image_dimensions(s.buf).1 == 0 || (s.x
        + image_dimensions(s.buf).0 <= w && s.y + image_dimensions(s.buf).1 <= h)
}

/// The part of a section copied so far, row by row: rows above `row`, and the
/// first `col` pixels of row `row`.
spec fn copied(p: (u32, u32), ox: u32, oy: u32, sw: u32, sh: u32, row: int, col: int) -> bool {
    in_rect(p, ox, oy, sw, sh) && (p.1 - oy < row || (p.1 - oy == row && p.0 - ox < col))
}

spec fn partial_paste(
    base: Map<(u32, u32), Px>,
    sec: Map<(u32, u32), Px>,
    sw: u32,
    sh: u32,
    ox: u32,
    oy: u32,
    row: int,
    col: int,
) -> Map<(u32, u32), Px> {
    Map::new(
        |p: (u32, u32)| base.dom().contains(p),
        |p: (u32, u32)|
            if copied(p, ox, oy, sw, sh, row, col) {
                sec[((p.0 - ox) as u32, (p.1 - oy) as u32)]
            } else {
                base[p]
            },
    )
}

/// Copies every pixel of a section into `imgbuf` at the section's offset.
fn paste_one(sec: &ImgSec, imgbuf: &mut RgbBuffer)
    requires
        section_fits(*sec, image_dimensions(*old(imgbuf)).0, image_dimensions(*old(imgbuf)).1),
    ensures
        image_dimensions(*final(imgbuf)) == image_dimensions(*old(imgbuf)),
        image_pixels(*final(imgbuf)) == paste_section(image_pixels(*old(imgbuf)), *sec),
{
    let ghost base = image_pixels(*imgbuf);
    let ghost dims = image_dimensions(*imgbuf);
    let (bw, bh) = image_size(imgbuf);
    let (sw, sh) = image_size(&sec.buf);
    let ghost spix = image_pixels(sec.buf);
    let ox = sec.x;
    let oy = sec.y;
    let mut row: u32 = 0;
    assert(partial_paste(base, spix, sw, sh, ox, oy, 0int, 0int) =~= base);
    while row < sh
        invariant
            row <= sh,
            image_dimensions(*imgbuf) == dims,
            dims == (bw, bh),
            (sw, sh) == image_dimensions(sec.buf),
            spix == image_pixels(sec.buf),
            ox == sec.x,
            oy == sec.y,
            section_fits(*sec, bw, bh),
            forall|p: (u32, u32)| #[trigger] base.dom().contains(p) <==> in_bounds(p, bw, bh),
            forall|p: (u32, u32)| #[trigger] spix.dom().contains(p) <==> in_bounds(p, sw, sh),
            image_pixels(*imgbuf) == partial_paste(base, spix, sw, sh, ox, oy, row as int, 0int),
        decreases sh - row,
    {
        let mut col: u32 = 0;
        while col < sw
            invariant
                row < sh,
                col <= sw,
                image_dimensions(*imgbuf) == dims,
                dims == (bw, bh),
                (sw, sh) == image_dimensions(sec.buf),
                spix == image_pixels(sec.buf),
                ox == sec.x,
                oy == sec.y,
                section_fits(*sec, bw, bh),
                forall|p: (u32, u32)| #[trigger] base.dom().contains(p) <==> in_bounds(p, bw, bh),
                forall|p: (u32, u32)| #[trigger] spix.dom().contains(p) <==> in_bounds(p, sw, sh),
                image_pixels(*imgbuf) == partial_paste(base, spix, sw, sh, ox, oy, row as int, col as int),
            decreases sw - col,
        {
            let p = pixel_at(&sec.buf, col, row);
            set_pixel(imgbuf, ox + col, oy + row, p);
            assert(image_pixels(*imgbuf) =~= partial_paste(base, spix, sw, sh, ox, oy, row as int, col + 1));
            col = col + 1;
        }
        assert(partial_paste(base, spix, sw, sh, ox, oy, row as int, sw as int) =~= partial_paste(
            base,
            spix,
            sw,
            sh,
            ox,
            oy,
            row + 1,
            0int,
        ));
        row = row + 1;
    }
    assert(partial_paste(base, spix, sw, sh, ox, oy, sh as int, 0int) =~= paste_section(base, *sec));
}

/// Copies each section into `imgbuf` at its offset, in the order given, and
/// returns how many sections there were.
pub fn receive_imgbuf(receiver: Vec<ImgSec>, imgbuf: &mut RgbBuffer) -> (count: usize)
    requires
        forall|i: int|
            0 <= i < receiver@.len() ==> section_fits(
                #[trigger] receiver@[i],
                image_dimensions(*old(imgbuf)).0,
                image_dimensions(*old(imgbuf)).1,
            ),
    ensures
        count == receiver@.len(),
        image_dimensions(*final(imgbuf)) == image_dimensions(*old(imgbuf)),
        image_pixels(*final(imgbuf)) == paste_all(image_pixels(*old(imgbuf)), receiver@),
{
    let ghost base = image_pixels(*imgbuf);
    let ghost dims = image_dimensions(*imgbuf);
    let mut count: usize = 0;
    assert(receiver@.take(0) =~= Seq::<ImgSec>::empty());
    while count < receiver.len()
        invariant
            count <= receiver@.len(),
            image_dimensions(*imgbuf) == dims,
            forall|i: int|
                0 <= i < receiver@.len() ==> section_fits(#[trigger] receiver@[i], dims.0, dims.1),
            image_pixels(*imgbuf) == paste_all(base, receiver@.take(count as int)),
        decreases receiver@.len() - count,
    {
        paste_one(&receiver[count], imgbuf);
        assert(receiver@.take(count + 1).drop_last() =~= receiver@.take(count as int));
        count = count + 1;
    }
    assert(receiver@.take(count as int) =~= receiver@);
    count
}

/// A point to draw: screen coordinates (the low 16 bits of the image coordinates,
/// read as signed) and its colour.
pub type DrawPoint = (i16, i16, Px);

/// Whether a pixel is drawn: any component above zero.
pub open spec fn is_lit(p: Px) -> bool {
    p.0 > 0 || p.1 > 0 || p.2 > 0
}

/// The lit pixels among the first `n` of row `y`, left to right.
pub open spec fn lit_in_row(pix: Map<(u32, u32), Px>, y: u32, n: nat) -> Seq<DrawPoint>
    decreases n,
{
    if n == 0 {
        Seq::<DrawPoint>::empty()
    } else {
        let x = (n - 1) as u32;
        let rest = lit_in_row(pix, y, (n - 1) as nat);
        if is_lit(pix[(x, y)]) {
            rest.push((x as i16, y as i16, pix[(x, y)]))
        } else {
            rest
        }
    }
}

/// The lit pixels of the first `m` rows of a `w`-wide image, row by row.
pub open spec fn lit_in_rows(pix: Map<(u32, u32), Px>, w: nat, m: nat) -> Seq<DrawPoint>
    decreases m,
{
    if m == 0 {
        Seq::<DrawPoint>::empty()
    } else {
        lit_in_rows(pix, w, (m - 1) as nat) + lit_in_row(pix, (m - 1) as u32, w)
    }
}

/// The pixels to draw from an image, in the order the image enumerates them
/// (row by row, left to right): every pixel that is not black.
pub fn visible_pixels(img: &RgbBuffer) -> (out: Vec<DrawPoint>)
    ensures
        out@ == lit_in_rows(image_pixels(*img), image_dimensions(*img).0 as nat, image_dimensions(*img).1 as nat),
{
    let ghost pix = image_pixels(*img);
    let (w, h) = image_size(img);
    let mut out: Vec<DrawPoint> = Vec::new();
    let mut y: u32 = 0;
    while y < h
        invariant
            y <= h,
            (w, h) == image_dimensions(*img),
            pix == image_pixels(*img),
            out@ == lit_in_rows(pix, w as nat, y as nat),
        decreases h - y,
    {
        let ghost before = out@;
        let mut x: u32 = 0;
        while x < w
            invariant
                y < h,
                x <= w,
                (w, h) == image_dimensions(*img),
                pix == image_pixels(*img),
                out@ == before + lit_in_row(pix, y, x as nat),
            decreases w - x,
        {
            let p = pixel_at(img, x, y);
            if p.0 > 0 || p.1 > 0 || p.2 > 0 {
                out.push((x as i16, y as i16, p));
            }
            assert(out@ =~= before + lit_in_row(pix, y, (x + 1) as nat));
            x = x + 1;
        }
        y = y + 1;
    }
    out
}

/// The keys the viewer reacts to.
#[derive(Clone, Copy, Debug, PartialEq, Eq, Structural)]
pub enum Key {
    Escape,
    Q,
    Up,
    Down,
    Left,
    Right,
    Equals,
    Minus,
    P,
    N,
    S,
    /// Any other key.
    Other,
}

/// An input event, as far as the viewer tells events apart.
#[derive(Clone, Copy, Debug, PartialEq, Eq, Structural)]
pub enum InputEvent {
    /// The window is closed.
    Quit,
    /// A key is pressed; `None` when the key has no key code.
    KeyDown(Option<Key>),
    /// The window is resized.
    Resized,
    /// Any other event.
    Other,
}

/// What the viewer does in answer to an event.
#[derive(Clone, Copy, Debug, PartialEq, Eq, Structural)]
pub enum Action {
    /// Leave the program.
    Exit,
    /// Take the window's new size as the image size.
    Resize,
    /// Move the view up by one step.
    PanUp,
    /// Move the view down by one step.
    PanDown,
    /// Move the view left by one step.
    PanLeft,
    /// Move the view right by one step.
    PanRight,
    /// Zoom in by one step.
    ZoomIn,
    /// Zoom out by one step.
    ZoomOut,
    /// Allow 255 more iterations.
    MoreIterations,
    /// Allow 255 fewer iterations.
    FewerIterations,
    /// Save an image four times the size of the window.
    Screenshot,
    /// Nothing to do.
    Ignore,
}

/// The action for each event.
pub open spec fn action_for(e: InputEvent) -> Action {
    match e {
        InputEvent::Quit => Action::Exit,
        InputEvent::Resized => Action::Resize,
        InputEvent::KeyDown(Some(k)) => match k {
            Key::Escape => Action::Exit,
            Key::Q => Action::Exit,
            Key::Up => Action::PanUp,
            Key::Down => Action::PanDown,
            Key::Left => Action::PanLeft,
            Key::Right => Action::PanRight,
            Key::Equals => Action::ZoomIn,
            Key::Minus => Action::ZoomOut,
            Key::P => Action::MoreIterations,
            Key::N => Action::FewerIterations,
            Key::S => Action::Screenshot,
            Key::Other => Action::Ignore,
        },
        InputEvent::KeyDown(None) => Action::Ignore,
        InputEvent::Other => Action::Ignore,
    }
}

/// Whether the picture has to be computed again after the action: after every
/// action but `Ignore` (and `Exit`, after which nothing follows).
pub open spec fn redraw_after(a: Action) -> bool {
    a != Action::Ignore && a != Action::Exit
}

impl Action {
    /// Whether the picture has to be computed again after this action.
    pub fn needs_redraw(&self) -> (r: bool)
        ensures
            r == redraw_after(*self),
    {
        match self {
            Action::Ignore => false,
            Action::Exit => false,
            _ => true,
        }
    }
}

/// Whether the parameters allow the action without overflow.
pub open spec fn action_allowed(p: Parameters, a: Action) -> bool {
    &&& a == Action::MoreIterations ==> p.iterations + 255 <= u32::MAX
    &&& a == Action::FewerIterations ==> p.iterations >= 255
}

/// The iteration count after the action.
pub open spec fn iterations_after(iterations: u32, a: Action) -> int {
    match a {
        Action::MoreIterations => iterations + 255,
        Action::FewerIterations => iterations - 255,
        _ => iterations as int,
    }
}

/// Whether the picture has the size the parameters give.
pub open spec fn picture_matches(p: Parameters, img: RgbBuffer) -> bool {
    image_dimensions(img) == (p.size.x, p.size.y)
}

/// Decides what an event means and applies what it changes in the parameters and
/// the picture: `P` and `N` change the iteration count, and a resize takes `window`
/// (the window's new size, which the caller reads for a resize only) as the image
/// size and starts a black picture of that size. The other actions, whose work lies
/// outside what is held here, are returned for the caller to carry out.
pub fn event_query(
    event: &InputEvent,
    params: &mut Parameters,
    imgbuf: &mut RgbBuffer,
    window: Option<(u32, u32)>,
) -> (action: Action)
    requires
        action_allowed(*old(params), action_for(*event)),
        action_for(*event) == Action::Resize ==> (window matches Some(w) && fits_in_memory(w.0, w.1)),
    ensures
        action == action_for(*event),
        final(params).iterations == iterations_after(old(params).iterations, action),
        final(params).threads == old(params).threads,
        final(params).output == old(params).output,
        final(params).colours == old(params).colours,
        action == Action::Resize ==> ({
            let w = window->0;
            &&& final(params).size == (ImageSize { x: w.0, y: w.1 })
            &&& image_dimensions(*final(imgbuf)) == w
            &&& image_pixels(*final(imgbuf)) == black_canvas(w.0, w.1)
        }),
        action != Action::Resize ==> final(params).size == old(params).size && *final(imgbuf)
            == *old(imgbuf),
        picture_matches(*old(params), *old(imgbuf)) ==> picture_matches(*final(params), *final(imgbuf)),
{
    let action = match event {
        InputEvent::Quit => Action::Exit,
        InputEvent::Resized => Action::Resize,
        InputEvent::KeyDown(Some(k)) => match k {
            Key::Escape => Action::Exit,
            Key::Q => Action::Exit,
            Key::Up => Action::PanUp,
            Key::Down => Action::PanDown,
            Key::Left => Action::PanLeft,
            Key::Right => Action::PanRight,
            Key::Equals => Action::ZoomIn,
            Key::Minus => Action::ZoomOut,
            Key::P => Action::MoreIterations,
            Key::N => Action::FewerIterations,
            Key::S => Action::Screenshot,
            Key::Other => Action::Ignore,
        },
        InputEvent::KeyDown(None) => Action::Ignore,
        InputEvent::Other => Action::Ignore,
    };
    match action {
        Action::MoreIterations => {
            params.iterations = params.iterations + 255;
        },
        Action::FewerIterations => {
            params.iterations = params.iterations - 255;
        },
        Action::Resize => {
            if let Some((w, h)) = window {
                apply_resize(params, imgbuf, w, h);
            }
        },
        _ => {},
    }
    action
}

/// The size of a screenshot: four times the window in both directions.
pub open spec fn enlarged(s: ImageSize) -> ImageSize {
    ImageSize { x: (s.x * 4) as u32, y: (s.y * 4) as u32 }
}

/// The size after a screenshot: a quarter in both directions, rounded down.
pub open spec fn restored(s: ImageSize) -> ImageSize {
    ImageSize { x: (s.x / 4) as u32, y: (s.y / 4) as u32 }
}

impl Parameters {
    /// Multiplies the image size by four in both directions, for a screenshot.
    pub fn enlarge_for_screenshot(&mut self)
        requires
            old(self).size.x * 4 <= u32::MAX,
            old(self).size.y * 4 <= u32::MAX,
        ensures
            final(self).size == enlarged(old(self).size),
            final(self).iterations == old(self).iterations,
            final(self).threads == old(self).threads,
            final(self).output == old(self).output,
            final(self).colours == old(self).colours,
    {
        self.size = ImageSize { x: self.size.x * 4, y: self.size.y * 4 };
    }

    /// Divides the image size by four in both directions (rounding down), after a screenshot.
    pub fn restore_after_screenshot(&mut self)
        ensures
            final(self).size == restored(old(self).size),
            final(self).iterations == old(self).iterations,
            final(self).threads == old(self).threads,
            final(self).output == old(self).output,
            final(self).colours == old(self).colours,
    {
        self.size = ImageSize { x: self.size.x / 4, y: self.size.y / 4 };
    }
}

/// Takes the window's size `(w, h)` as the image size and replaces the picture
/// with a black one of that size.
pub fn apply_resize(params: &mut Parameters, imgbuf: &mut RgbBuffer, w: u32, h: u32)
    requires
        fits_in_memory(w, h),
    ensures
        final(params).size == (ImageSize { x: w, y: h }),
        final(params).iterations == old(params).iterations,
        final(params).threads == old(params).threads,
        final(params).output == old(params).output,
        final(params).colours == old(params).colours,
        image_dimensions(*final(imgbuf)) == (w, h),
        image_pixels(*final(imgbuf)) == black_canvas(w, h),
{
    params.size = ImageSize { x: w, y: h };
    *imgbuf = new_image(w, h);
}

/// Whether a `w` by `h` picture can be made: its buffer length fits in `usize`.
pub fn picture_fits(w: u32, h: u32) -> (b: bool)
    ensures
        b == fits_in_memory(w, h),
{
    let three_w: u128 = 3 * (w as u128);
    assert(three_w * (h as u128) <= 3 * 0xffff_ffffu128 * 0xffff_ffffu128) by (nonlinear_arith)
        requires
            three_w <= 3 * 0xffff_ffffu128,
            h <= 0xffff_ffffu32,
    ;
    three_w <= usize::MAX as u128 && three_w * (h as u128) <= usize::MAX as u128
}

/// The width and height of a picture.
pub fn picture_size(img: &RgbBuffer) -> (r: (u32, u32))
    ensures
        r == image_dimensions(*img),
{
    image_size(img)
}

/// Whether every pixel of a section lands inside the picture.
pub fn section_fits_picture(sec: &ImgSec, img: &RgbBuffer) -> (b: bool)
    ensures
        b == section_fits(*sec, image_dimensions(*img).0, image_dimensions(*img).1),
{
    let (w, h) = image_size(img);
    let (sw, sh) = image_size(&sec.buf);
    sw == 0 || sh == 0 || ((sec.x as u64) + (sw as u64) <= w as u64 && (sec.y as u64) + (sh as u64)
        <= h as u64)
}

/// A blank (black) picture of the given size.
pub fn blank_image(size: ImageSize) -> (img: RgbBuffer)
    requires
        fits_in_memory(size.x, size.y),
    ensures
        image_dimensions(img) == (size.x, size.y),
        image_pixels(img) == black_canvas(size.x, size.y),
{
    new_image(size.x, size.y)
}

/// Taking a screenshot leaves the image size as it was: enlarging and then
/// restoring gives back the size it started from.
pub proof fn law_screenshot_keeps_size(s: ImageSize)
    requires
        s.x * 4 <= u32::MAX,
        s.y * 4 <= u32::MAX,
    ensures
        restored(enlarged(s)) == s,
{
}

/// `P` and `N` undo each other: 255 more iterations then 255 fewer, or the other
/// way round, gives back the count it started from.
pub proof fn law_iterations_undo(iterations: u32)
    ensures
        iterations + 255 <= u32::MAX ==> iterations_after(
            iterations_after(iterations, Action::MoreIterations) as u32,
            Action::FewerIterations,
        ) == iterations,
        iterations >= 255 ==> iterations_after(
            iterations_after(iterations, Action::FewerIterations) as u32,
            Action::MoreIterations,
        ) == iterations,
{
}

/// A received picture shows, at each point that some section covers, the pixel of
/// the last section covering it, and elsewhere what was there before; the set of
/// points is unchanged.
pub proof fn law_received_pixels(base: Map<(u32, u32), Px>, secs: Seq<ImgSec>, p: (u32, u32))
    requires
        base.dom().contains(p),
    ensures
        paste_all(base, secs).dom() == base.dom(),
        (forall|i: int| 0 <= i < secs.len() ==> !in_rect(p, #[trigger] secs[i].x, secs[i].y, image_dimensions(secs[i].buf).0, image_dimensions(secs[i].buf).1))
            ==> paste_all(base, secs)[p] == base[p],
        secs.len() > 0 && in_rect(p, secs.last().x, secs.last().y, image_dimensions(secs.last().buf).0, image_dimensions(secs.last().buf).1)
            ==> paste_all(base, secs)[p] == image_pixels(secs.last().buf)[((p.0 - secs.last().x) as u32, (p.1 - secs.last().y) as u32)],
    decreases secs.len(),
{
    if secs.len() > 0 {
        law_received_pixels(base, secs.drop_last(), p);
        assert(paste_all(base, secs).dom() =~= base.dom());
        if forall|i: int| 0 <= i < secs.len() ==> !in_rect(p, #[trigger] secs[i].x, secs[i].y, image_dimensions(secs[i].buf).0, image_dimensions(secs[i].buf).1) {
            assert forall|i: int| 0 <= i < secs.drop_last().len() implies !in_rect(p, #[trigger] secs.drop_last()[i].x, secs.drop_last()[i].y, image_dimensions(secs.drop_last()[i].buf).0, image_dimensions(secs.drop_last()[i].buf).1) by {
                assert(secs.drop_last()[i] == secs[i]);
            }
            assert(!in_rect(p, secs[secs.len() - 1].x, secs[secs.len() - 1].y, image_dimensions(secs[secs.len() - 1].buf).0, image_dimensions(secs[secs.len() - 1].buf).1));
        }
    }
}

/// Only lit pixels are drawn, each at its own coordinates.
pub proof fn law_only_lit_drawn(pix: Map<(u32, u32), Px>, w: nat, h: nat, k: int)
    requires
        0 <= k < lit_in_rows(pix, w, h).len(),
    ensures
        is_lit(lit_in_rows(pix, w, h)[k].2),
    decreases h,
{
    if h > 0 {
        let rest = lit_in_rows(pix, w, (h - 1) as nat);
        if k < rest.len() {
            law_only_lit_drawn(pix, w, (h - 1) as nat, k);
        } else {
            lemma_row_lit(pix, (h - 1) as u32, w, k - rest.len());
        }
    }
}

proof fn lemma_row_lit(pix: Map<(u32, u32), Px>, y: u32, n: nat, k: int)
    requires
        0 <= k < lit_in_row(pix, y, n).len(),
    ensures
        is_lit(lit_in_row(pix, y, n)[k].2),
    decreases n,
{
    if n > 0 {
        let rest = lit_in_row(pix, y, (n - 1) as nat);
        if k < rest.len() {
            lemma_row_lit(pix, y, (n - 1) as nat, k);
        }
    }
}

/// Every action that changes the view, the parameters or the picture is followed by
/// a fresh rendering; only an ignored event and leaving the program are not.
pub proof fn law_redraw_after_every_change(a: Action)
    ensures
        redraw_after(a) <==> !(a == Action::Ignore || a == Action::Exit),
        redraw_after(Action::Resize),
        redraw_after(Action::PanUp),
        redraw_after(Action::PanDown),
        redraw_after(Action::PanLeft),
        redraw_after(Action::PanRight),
        redraw_after(Action::ZoomIn),
        redraw_after(Action::ZoomOut),
        redraw_after(Action::MoreIterations),
        redraw_after(Action::FewerIterations),
        redraw_after(Action::Screenshot),
        !redraw_after(Action::Ignore),
        !redraw_after(Action::Exit),
{
}

/// `P` raises the iteration count by exactly 255, `N` lowers it by exactly 255, and
/// no other action changes it.
pub proof fn law_iteration_steps(iterations: u32, a: Action)
    ensures
        iterations_after(iterations, Action::MoreIterations) == iterations + 255,
        iterations_after(iterations, Action::FewerIterations) == iterations - 255,
        a != Action::MoreIterations && a != Action::FewerIterations ==> iterations_after(
            iterations,
            a,
        ) == iterations,
{
}

/// Every section shows in the received picture wherever no later section covers it:
/// at a point of section `i`'s rectangle that no later section covers, the picture
/// holds section `i`'s pixel at the matching place.
pub proof fn law_section_shows_unless_covered_later(
    base: Map<(u32, u32), Px>,
    secs: Seq<ImgSec>,
    i: int,
    p: (u32, u32),
)
    requires
        base.dom().contains(p),
        0 <= i < secs.len(),
        in_rect(p, secs[i].x, secs[i].y, image_dimensions(secs[i].buf).0, image_dimensions(secs[i].buf).1),
        forall|j: int|
            i < j < secs.len() ==> !in_rect(
                p,
                #[trigger] secs[j].x,
                secs[j].y,
                image_dimensions(secs[j].buf).0,
                image_dimensions(secs[j].buf).1,
            ),
    ensures
        paste_all(base, secs)[p] == image_pixels(secs[i].buf)[((p.0 - secs[i].x) as u32, (p.1
            - secs[i].y) as u32)],
    decreases secs.len(),
{
    let n = secs.len();
    let prev = secs.drop_last();
    law_received_pixels(base, prev, p);
    if i < n - 1 {
        assert forall|j: int| i < j < prev.len() implies !in_rect(
            p,
            #[trigger] prev[j].x,
            prev[j].y,
            image_dimensions(prev[j].buf).0,
            image_dimensions(prev[j].buf).1,
        ) by {
            assert(prev[j] == secs[j]);
        }
        assert(prev[i] == secs[i]);
        law_section_shows_unless_covered_later(base, prev, i, p);
        let last = secs[n - 1];
        assert(!in_rect(p, last.x, last.y, image_dimensions(last.buf).0, image_dimensions(last.buf).1));
    }
}

/// Whether `a` comes before `b` when an image is read row by row, left to right.
pub open spec fn row_major_before(a: (u32, u32), b: (u32, u32)) -> bool {
    a.1 < b.1 || (a.1 == b.1 && a.0 < b.0)
}

spec fn row_sources(pix: Map<(u32, u32), Px>, y: u32, n: nat) -> Seq<(u32, u32)>
    decreases n,
{
    if n == 0 {
        Seq::<(u32, u32)>::empty()
    } else {
        let x = (n - 1) as u32;
        let rest = row_sources(pix, y, (n - 1) as nat);
        if is_lit(pix[(x, y)]) {
            rest.push((x, y))
        } else {
            rest
        }
    }
}

spec fn rows_sources(pix: Map<(u32, u32), Px>, w: nat, m: nat) -> Seq<(u32, u32)>
    decreases m,
{
    if m == 0 {
        Seq::<(u32, u32)>::empty()
    } else {
        rows_sources(pix, w, (m - 1) as nat) + row_sources(pix, (m - 1) as u32, w)
    }
}

proof fn lemma_row_sources(pix: Map<(u32, u32), Px>, y: u32, n: nat)
    requires
        n <= 0x1_0000_0000,
    ensures
        row_sources(pix, y, n).len() == lit_in_row(pix, y, n).len(),
        forall|k: int|
            0 <= k < row_sources(pix, y, n).len() ==> {
                let s = #[trigger] row_sources(pix, y, n)[k];
                &&& s.1 == y
                &&& s.0 < n
                &&& is_lit(pix[s])
                &&& lit_in_row(pix, y, n)[k] == (s.0 as i16, s.1 as i16, pix[s])
            },
        forall|k1: int, k2: int|
            0 <= k1 < k2 < row_sources(pix, y, n).len() ==> (#[trigger] row_sources(pix, y, n)[k1]).0
                < (#[trigger] row_sources(pix, y, n)[k2]).0,
        forall|x: u32| x < n && is_lit(#[trigger] pix[(x, y)]) ==> row_sources(pix, y, n).contains((x, y)),
    decreases n,
{
    if n > 0 {
        let m = (n - 1) as nat;
        lemma_row_sources(pix, y, m);
        let rest = row_sources(pix, y, m);
        let x = m as u32;
        assert forall|x2: u32| x2 < n && is_lit(#[trigger] pix[(x2, y)]) implies row_sources(
            pix,
            y,
            n,
        ).contains((x2, y)) by {
            if x2 < m {
                assert(rest.contains((x2, y)));
                let k = choose|k: int| 0 <= k < rest.len() && rest[k] == (x2, y);
                if is_lit(pix[(x, y)]) {
                    assert(row_sources(pix, y, n)[k] == (x2, y));
                }
            } else {
                assert(x2 == x);
                assert(row_sources(pix, y, n) == rest.push((x, y)));
                assert(row_sources(pix, y, n)[rest.len() as int] == (x2, y));
            }
        }
    }
}

proof fn lemma_rows_sources(pix: Map<(u32, u32), Px>, w: nat, m: nat)
    requires
        w <= 0x1_0000_0000,
        m <= 0x1_0000_0000,
    ensures
        rows_sources(pix, w, m).len() == lit_in_rows(pix, w, m).len(),
        forall|k: int|
            0 <= k < rows_sources(pix, w, m).len() ==> {
                let s = #[trigger] rows_sources(pix, w, m)[k];
                &&& s.0 < w
                &&& s.1 < m
                &&& is_lit(pix[s])
                &&& lit_in_rows(pix, w, m)[k] == (s.0 as i16, s.1 as i16, pix[s])
            },
        forall|k1: int, k2: int|
            0 <= k1 < k2 < rows_sources(pix, w, m).len() ==> row_major_before(
                #[trigger] rows_sources(pix, w, m)[k1],
                #[trigger] rows_sources(pix, w, m)[k2],
            ),
        forall|p: (u32, u32)|
            p.0 < w && p.1 < m && is_lit(#[trigger] pix[p]) ==> rows_sources(pix, w, m).contains(p),
    decreases m,
{
    if m > 0 {
        let m1 = (m - 1) as nat;
        let y = m1 as u32;
        lemma_rows_sources(pix, w, m1);
        lemma_row_sources(pix, y, w);
        let a = rows_sources(pix, w, m1);
        let b = row_sources(pix, y, w);
        let la = lit_in_rows(pix, w, m1);
        let lb = lit_in_row(pix, y, w);
        let all = rows_sources(pix, w, m);
        assert(all == a + b);
        assert(lit_in_rows(pix, w, m) == la + lb);
        assert forall|k: int| 0 <= k < all.len() implies {
            let s = #[trigger] all[k];
            &&& s.0 < w
            &&& s.1 < m
            &&& is_lit(pix[s])
            &&& lit_in_rows(pix, w, m)[k] == (s.0 as i16, s.1 as i16, pix[s])
        } by {
            if k < a.len() {
                assert(all[k] == a[k]);
                assert(a[k] == a[k]);
            } else {
                assert(all[k] == b[k - a.len()]);
                assert(b[k - a.len()] == b[k - a.len()]);
            }
        }
        assert forall|k1: int, k2: int| 0 <= k1 < k2 < all.len() implies row_major_before(
            #[trigger] all[k1],
            #[trigger] all[k2],
        ) by {
            if k2 < a.len() {
                assert(all[k1] == a[k1] && all[k2] == a[k2]);
            } else if k1 >= a.len() {
                assert(all[k1] == b[k1 - a.len()] && all[k2] == b[k2 - a.len()]);
            } else {
                assert(all[k1] == a[k1] && all[k2] == b[k2 - a.len()]);
                assert(a[k1].1 < m1);
                assert(b[k2 - a.len()].1 == y);
            }
        }
        assert forall|p: (u32, u32)| p.0 < w && p.1 < m && is_lit(#[trigger] pix[p]) implies all.contains(p) by {
            if p.1 < m1 {
                assert(a.contains(p));
                let k = choose|k: int| 0 <= k < a.len() && a[k] == p;
                assert(all[k] == p);
            } else {
                assert(p == (p.0, y));
                assert(b.contains((p.0, y)));
                let k = choose|k: int| 0 <= k < b.len() && b[k] == (p.0, y);
                assert(all[a.len() + k] == p);
            }
        }
    }
}

/// The points drawn from a `w` by `h` image are exactly its lit pixels (those with a
/// component above zero), each once, row by row and left to right, each at its own
/// coordinates cut to 16 bits and with its own colour.
pub proof fn law_drawn_points(pix: Map<(u32, u32), Px>, w: u32, h: u32)
    ensures
        exists|src: Seq<(u32, u32)>|
            #![trigger src.len()]
            {
                &&& src.len() == lit_in_rows(pix, w as nat, h as nat).len()
                &&& forall|k: int|
                    0 <= k < src.len() ==> {
                        let s = #[trigger] src[k];
                        &&& s.0 < w && s.1 < h
                        &&& pix[s].0 > 0 || pix[s].1 > 0 || pix[s].2 > 0
                        &&& lit_in_rows(pix, w as nat, h as nat)[k] == (s.0 as i16, s.1 as i16, pix[s])
                    }
                &&& forall|k1: int, k2: int|
                    0 <= k1 < k2 < src.len() ==> (#[trigger] src[k1]).1 < (#[trigger] src[k2]).1 || (
                    src[k1].1 == src[k2].1 && src[k1].0 < src[k2].0)
                &&& forall|p: (u32, u32)|
                    p.0 < w && p.1 < h && (#[trigger] pix[p].0 > 0 || pix[p].1 > 0 || pix[p].2 > 0)
                        ==> src.contains(p)
            },
{
    lemma_rows_sources(pix, w as nat, h as nat);
    let src = rows_sources(pix, w as nat, h as nat);
    assert forall|k1: int, k2: int| 0 <= k1 < k2 < src.len() implies (#[trigger] src[k1]).1 < (
    #[trigger] src[k2]).1 || (src[k1].1 == src[k2].1 && src[k1].0 < src[k2].0) by {
        assert(row_major_before(src[k1], src[k2]));
    }
    assert forall|p: (u32, u32)| p.0 < w && p.1 < h && (#[trigger] pix[p].0 > 0 || pix[p].1 > 0 || pix[p].2 > 0) implies src.contains(p) by {
        assert(is_lit(pix[p]));
    }
}

} // verus!
