use vstd::prelude::*;
use unicode_normalization::UnicodeNormalization;
use crate::transform::UiTransform;

verus! {

/// Number of fixed-point steps that stand for the value one. Color
/// channels, coverage values and font sizes are all counted in these
/// steps: a channel of `UNIT` is full intensity, one of zero is none.
pub const UNIT: u32 = 1000000;

/// Coverage or alpha at or below this threshold counts as invisible:
/// one hundredth of full intensity.
pub const VIS_THRESHOLD: u32 = 10000;

/// Whether a character is a Unicode combining mark.
pub uninterp spec fn combining_mark(c: char) -> bool;

/// The canonical decomposition of a character sequence.
pub uninterp spec fn nfd_seq(s: Seq<char>) -> Seq<char>;

/// Relies on unicode_normalization::char::is_combining_mark: whether
/// the character is a combining mark, a fact of the character alone.
#[verifier::external_body]
fn is_combining(c: char) -> (r: bool)
    ensures
        r == combining_mark(c),
{
    unicode_normalization::char::is_combining_mark(c)
}

/// Relies on UnicodeNormalization::nfd from unicode_normalization:
/// the result is the canonical decomposition (NFD) of the input. It
/// depends on the input characters alone, and is itself in canonical
/// decomposed form, normalization being idempotent.
#[verifier::external_body]
fn nfd_of(s: &String) -> (r: String)
    ensures
        r@ == nfd_seq(s@),
        nfd_seq(r@) == r@,
{
    s.as_str().nfd().collect()
}

/// Whether any character of the text is a combining mark.
pub open spec fn has_combining(s: Seq<char>) -> bool {
    exists|i: int| 0 <= i < s.len() && combining_mark(s[i])
}

/// The normalization applied before glyph layout: text that holds a
/// combining mark is replaced by its canonical decomposition, other
/// text is left as it is.
pub open spec fn normal_form(s: Seq<char>) -> Seq<char> {
    if has_combining(s) {
        nfd_seq(s)
    } else {
        s
    }
}

/// Normalization is idempotent: a text already in canonical
/// decomposed form is left unchanged by the normalization step.
pub proof fn lemma_normalization_idempotent(s: Seq<char>)
    requires
        nfd_seq(s) == s,
    ensures
        normal_form(s) == s,
{
}

#[verifier::loop_isolation(false)]
fn contains_combining(s: &String) -> (r: bool)
    ensures
        r == has_combining(s@),
{
    let n = s.as_str().unicode_len();
    let mut i: usize = 0;
    while i < n
        invariant
            0 <= i <= n,
            n == s@.len(),
            forall|k: int| 0 <= k < i ==> !combining_mark(s@[k]),
        decreases n - i,
    {
        if is_combining(s.as_str().get_char(i)) {
            return true;
        }
        i += 1;
    }
    false
}

/// Brings a text into the form glyph layout receives. The result is a
/// fixed point of normalization: running it again changes nothing.
pub fn normalize_text(s: &String) -> (r: String)
    ensures
        r@ == normal_form(s@),
        normal_form(r@) == r@,
{
    if contains_combining(s) {
        nfd_of(s)
    } else {
        s.clone()
    }
}

/// Per-element text content: the string, its color and size, the font
/// it uses, the texture the text was last rendered onto, and the
/// dirty flag that marks that texture stale.
///
/// Color channels and the font size are fixed-point values counted in
/// steps of one millionth (`UNIT` stands for one); `color` is RGBA.
/// Font and texture handles are identifiers the surrounding asset
/// stores hand out.
pub struct UiText {
    /// The texture that text was last rendered onto. `None` if the
    /// text has not been rendered yet.
    pub(crate) texture: Option<u64>,
    font: u64,
    text: String,
    color: [u32; 4],
    font_size: u32,
    dirty: bool,
}

impl UiText {
    pub closed spec fn spec_texture(&self) -> Option<u64> {
        self.texture
    }

    pub closed spec fn spec_font(&self) -> u64 {
        self.font
    }

    pub closed spec fn spec_text(&self) -> Seq<char> {
        self.text@
    }

    pub closed spec fn spec_color(&self) -> [u32; 4] {
        self.color
    }

    pub closed spec fn spec_font_size(&self) -> u32 {
        self.font_size
    }

    pub closed spec fn spec_dirty(&self) -> bool {
        self.dirty
    }

    /// Makes a new text element. It starts dirty and without a
    /// rendered texture.
    pub fn new(font: u64, text: String, color: [u32; 4], font_size: u32) -> (r: UiText)
        ensures
            r.spec_texture() is None,
            r.spec_font() == font,
            r.spec_text() == text@,
            r.spec_color() == color,
            r.spec_font_size() == font_size,
            r.spec_dirty(),
    {
        UiText { texture: None, font, text, color, font_size, dirty: true }
    }

    /// The handle of the font this text is rendered with.
    pub fn font(&self) -> (r: u64)
        ensures
            r == self.spec_font(),
    {
        self.font
    }

    /// Sets the font, and marks the rendered texture stale.
    pub fn set_font(&mut self, font: u64)
        ensures
            final(self).spec_font() == font,
            final(self).spec_dirty(),
            final(self).spec_text() == old(self).spec_text(),
            final(self).spec_color() == old(self).spec_color(),
            final(self).spec_font_size() == old(self).spec_font_size(),
            final(self).spec_texture() == old(self).spec_texture(),
    {
        self.font = font;
        self.dirty = true;
    }

    /// The text being displayed.
    pub fn text(&self) -> (r: &String)
        ensures
            r@ == self.spec_text(),
    {
        &self.text
    }

    /// A mutable borrow of the text. Taking it marks the rendered
    /// texture stale, whatever is then written through it.
    pub fn text_mut(&mut self) -> (r: &mut String)
        ensures
            r@ == old(self).spec_text(),
            final(self).spec_text() == final(r)@,
            final(self).spec_dirty(),
            final(self).spec_font() == old(self).spec_font(),
            final(self).spec_color() == old(self).spec_color(),
            final(self).spec_font_size() == old(self).spec_font_size(),
            final(self).spec_texture() == old(self).spec_texture(),
    {
        self.dirty = true;
        &mut self.text
    }

    /// The RGBA color, each channel a fixed-point fraction of one.
    pub fn color(&self) -> (r: [u32; 4])
        ensures
            r == self.spec_color(),
    {
        self.color
    }

    /// Sets the color, and marks the rendered texture stale.
    pub fn set_color(&mut self, color: [u32; 4])
        ensures
            final(self).spec_color() == color,
            final(self).spec_dirty(),
            final(self).spec_text() == old(self).spec_text(),
            final(self).spec_font() == old(self).spec_font(),
            final(self).spec_font_size() == old(self).spec_font_size(),
            final(self).spec_texture() == old(self).spec_texture(),
    {
        self.color = color;
        self.dirty = true;
    }

    /// The font size, a fixed-point count of pixels.
    pub fn font_size(&self) -> (r: u32)
        ensures
            r == self.spec_font_size(),
    {
        self.font_size
    }

    /// Sets the font size, and marks the rendered texture stale.
    pub fn set_font_size(&mut self, size: u32)
        ensures
            final(self).spec_font_size() == size,
            final(self).spec_dirty(),
            final(self).spec_text() == old(self).spec_text(),
            final(self).spec_color() == old(self).spec_color(),
            final(self).spec_font() == old(self).spec_font(),
            final(self).spec_texture() == old(self).spec_texture(),
    {
        self.dirty = true;
        self.font_size = size;
    }

    /// The texture the text was last rendered onto, if any.
    pub fn texture(&self) -> (r: Option<u64>)
        ensures
            r == self.spec_texture(),
    {
        self.texture
    }
}

/// What the rasterization pass decides for one text element this
/// frame.
#[derive(Clone, Copy, PartialEq, Eq, Structural, Debug)]
pub enum RasterStep {
    /// Nothing to do: the element is not dirty, or its font has not
    /// resolved yet (it then stays dirty and is retried next frame).
    Skip,
    /// The text is invisible: upload an all-transparent buffer of
    /// this size without laying any glyph out.
    Blank { width: u32, height: u32 },
    /// Lay the element's normalized text out and fill a buffer of
    /// this size with the covered texels.
    Text { width: u32, height: u32 },
}

/// Decides, once per frame and per text element, whether the cached
/// texture is stale, and what the frame must do about it. Glyph
/// layout and the texture upload are the surrounding services' work;
/// their results come back through [`UiTextRenderer::finish`].
pub struct UiTextRenderer;

impl UiTextRenderer {
    /// Starts the rasterization pass for one element.
    ///
    /// A clean element, or a dirty one whose font has not resolved,
    /// is left untouched; the latter stays dirty and is retried next
    /// frame. A dirty element with a resolved font has its dirty flag
    /// cleared at once — a later mutation dirties it again, but this
    /// pass is never run twice for the same prior state — and its
    /// text normalized; the step then says whether glyph layout is
    /// needed at all, which it is not when the alpha channel is at or
    /// below the visibility threshold.
    pub fn prepare(&self, transform: &UiTransform, text: &mut UiText, font_ready: bool) -> (r:
        RasterStep)
        ensures
            !(old(text).spec_dirty() && font_ready) ==> (*final(text) == *old(text) && r
                == RasterStep::Skip),
            old(text).spec_dirty() && font_ready ==> {
                &&& !final(text).spec_dirty()
                &&& final(text).spec_text() == normal_form(old(text).spec_text())
                &&& normal_form(final(text).spec_text()) == final(text).spec_text()
                &&& final(text).spec_color() == old(text).spec_color()
                &&& final(text).spec_font() == old(text).spec_font()
                &&& final(text).spec_font_size() == old(text).spec_font_size()
                &&& final(text).spec_texture() == old(text).spec_texture()
                &&& (old(text).spec_color()[3] <= VIS_THRESHOLD ==> r == (RasterStep::Blank {
                    width: transform.width,
                    height: transform.height,
                }))
                &&& (old(text).spec_color()[3] > VIS_THRESHOLD ==> r == (RasterStep::Text {
                    width: transform.width,
                    height: transform.height,
                }))
            },
    {
        if !(text.dirty && font_ready) {
            return RasterStep::Skip;
        }
        text.dirty = false;
        text.text = normalize_text(&text.text);
        if text.color[3] <= VIS_THRESHOLD {
            RasterStep::Blank { width: transform.width, height: transform.height }
        } else {
            RasterStep::Text { width: transform.width, height: transform.height }
        }
    }

    /// Ends the rasterization pass for one element: stores the handle
    /// the texture upload returned, replacing any previous one.
    pub fn finish(&self, text: &mut UiText, texture: u64)
        ensures
            final(text).spec_texture() == Some(texture),
            final(text).spec_dirty() == old(text).spec_dirty(),
            final(text).spec_text() == old(text).spec_text(),
            final(text).spec_color() == old(text).spec_color(),
            final(text).spec_font() == old(text).spec_font(),
            final(text).spec_font_size() == old(text).spec_font_size(),
    {
        text.texture = Some(texture);
    }
}

} // verus!
