//! Styling commands: colors, attributes, and styled text.

use vstd::prelude::*;

use crate::ansi::{csi_text, decimal, push_char, push_csi, push_csi_number, push_csi_str, push_str, Command};
use crate::attributes::{listing, sgr_code, Attribute, AttributeSet};
use crate::colors::{
    background_params, foreground_params, underline_params, Background, Color, Foreground, Underline,
};

verus! {

/// `ESC [ params m`.
pub open spec fn sgr_text(params: Seq<char>) -> Seq<char> {
    csi_text() + params + seq!['m']
}

/// Sets the background color.
pub struct SetBackgroundColor(pub Color);

/// Sets the foreground color.
pub struct SetForegroundColor(pub Color);

/// Sets the underline color.
pub struct SetUnderlineColor(pub Color);

impl Command for SetBackgroundColor {
    open spec fn ansi(&self) -> Seq<char> {
        sgr_text(background_params(self.0))
    }

    fn write(&self, out: &mut String) {
        let ghost start = out@;
        push_csi(out);
        Background(self.0).write(out);
        push_char(out, 'm');
        assert((start + csi_text() + background_params(self.0)).push('m') =~= start + self.ansi());
    }
}

impl Command for SetForegroundColor {
    open spec fn ansi(&self) -> Seq<char> {
        sgr_text(foreground_params(self.0))
    }

    fn write(&self, out: &mut String) {
        let ghost start = out@;
        push_csi(out);
        Foreground(self.0).write(out);
        push_char(out, 'm');
        assert((start + csi_text() + foreground_params(self.0)).push('m') =~= start + self.ansi());
    }
}

impl Command for SetUnderlineColor {
    open spec fn ansi(&self) -> Seq<char> {
        sgr_text(underline_params(self.0))
    }

    fn write(&self, out: &mut String) {
        let ghost start = out@;
        push_csi(out);
        Underline(self.0).write(out);
        push_char(out, 'm');
        assert((start + csi_text() + underline_params(self.0)).push('m') =~= start + self.ansi());
    }
}

/// The background, foreground and underline colors, each set or left as it is.
#[derive(Clone, Copy, Debug, PartialEq, Eq, Structural, Hash)]
pub struct Colors {
    pub bg: Option<Color>,
    pub fg: Option<Color>,
    pub ul: Option<Color>,
}

impl Colors {
    pub fn new() -> (r: Self)
        ensures
            r.bg is None && r.fg is None && r.ul is None,
    {
        Colors { bg: None, fg: None, ul: None }
    }

    pub fn is_empty(&self) -> (r: bool)
        ensures
            r == (self.bg is None && self.fg is None && self.ul is None),
    {
        self.bg.is_none() && self.fg.is_none() && self.ul.is_none()
    }
}

/// The text that sets `c`: foreground and background in one sequence, then the underline.
pub open spec fn colors_text(c: Colors) -> Seq<char> {
    let main = match (c.fg, c.bg) {
        (Some(fg), Some(bg)) => sgr_text(foreground_params(fg) + seq![';'] + background_params(bg)),
        (Some(fg), None) => sgr_text(foreground_params(fg)),
        (None, Some(bg)) => sgr_text(background_params(bg)),
        (None, None) => Seq::empty(),
    };
    match c.ul {
        Some(ul) => main + sgr_text(underline_params(ul)),
        None => main,
    }
}

/// Sets the colors that are given and leaves the others.
pub struct SetColors(pub Colors);

impl Command for SetColors {
    open spec fn ansi(&self) -> Seq<char> {
        colors_text(self.0)
    }

    fn write(&self, out: &mut String) {
        let ghost start = out@;
        match (self.0.fg, self.0.bg) {
            (Some(fg), Some(bg)) => {
                push_csi(out);
                Foreground(fg).write(out);
                push_char(out, ';');
                Background(bg).write(out);
                push_char(out, 'm');
                assert(((start + csi_text() + foreground_params(fg)).push(';') + background_params(bg)).push('m')
                    =~= start + sgr_text(foreground_params(fg) + seq![';'] + background_params(bg)));
            },
            (Some(fg), None) => SetForegroundColor(fg).write(out),
            (None, Some(bg)) => SetBackgroundColor(bg).write(out),
            (None, None) => {
                assert(start + Seq::<char>::empty() =~= start);
            },
        }
        if let Some(ul) = self.0.ul {
            SetUnderlineColor(ul).write(out);
        }
        assert(out@ =~= start + colors_text(self.0));
    }
}

/// Resets colors and attributes.
pub struct ResetColor;

impl Command for ResetColor {
    open spec fn ansi(&self) -> Seq<char> {
        csi_text() + "0m"@
    }

    fn write(&self, out: &mut String) {
        push_csi_str(out, "0m");
    }
}

pub open spec fn attribute_text(a: Attribute) -> Seq<char> {
    csi_text() + decimal(sgr_code(a) as nat) + seq!['m']
}

/// The texts of `attrs`, one after the other.
pub open spec fn attributes_text(attrs: Seq<Attribute>) -> Seq<char>
    decreases attrs.len(),
{
    if attrs.len() == 0 {
        Seq::empty()
    } else {
        attributes_text(attrs.drop_last()) + attribute_text(attrs.last())
    }
}

/// Sets one attribute.
pub struct SetAttribute(pub Attribute);

impl Command for SetAttribute {
    open spec fn ansi(&self) -> Seq<char> {
        attribute_text(self.0)
    }

    fn write(&self, out: &mut String) {
        push_csi_number(out, self.0.code() as u32, 'm');
    }
}

/// Sets each attribute of a set, in the order of `listing`.
pub struct SetAttributes(pub AttributeSet);

impl Command for SetAttributes {
    open spec fn ansi(&self) -> Seq<char> {
        attributes_text(listing().filter(|a: Attribute| self.0@.contains(a)))
    }

    fn write(&self, out: &mut String) {
        let attrs = self.0.iter();
        let ghost start = out@;
        let mut i: usize = 0;
        while i < attrs.len()
            invariant
                i <= attrs@.len(),
                out@ == start + attributes_text(attrs@.subrange(0, i as int)),
            decreases attrs@.len() - i,
        {
            SetAttribute(attrs[i]).write(out);
            proof {
                assert(attrs@.subrange(0, i + 1).drop_last() =~= attrs@.subrange(0, i as int));
                assert(start + attributes_text(attrs@.subrange(0, i as int)) + attribute_text(attrs@[i as int])
                    =~= start + attributes_text(attrs@.subrange(0, i + 1)));
            }
            i = i + 1;
        }
        assert(attrs@.subrange(0, attrs@.len() as int) =~= attrs@);
    }
}

/// Colors and attributes together.
#[derive(Clone, Copy, Debug, PartialEq, Eq, Structural, Hash)]
pub struct Style {
    pub colors: Colors,
    pub attributes: AttributeSet,
}

impl Style {
    pub fn new(colors: Colors, attributes: AttributeSet) -> (r: Self)
        ensures
            r.spec_colors() == colors,
            r.spec_attributes() == attributes,
    {
        Style { colors, attributes }
    }

    pub open spec fn spec_colors(&self) -> Colors {
        self.colors
    }

    pub open spec fn spec_attributes(&self) -> AttributeSet {
        self.attributes
    }

    pub fn is_empty(&self) -> (r: bool)
        ensures
            r == ((self.spec_colors().bg is None && self.spec_colors().fg is None
                && self.spec_colors().ul is None) && self.spec_attributes().mask == 0),
    {
        self.colors.is_empty() && self.attributes.is_empty()
    }

    pub fn colors(&self) -> (r: Colors)
        ensures
            r == self.spec_colors(),
    {
        self.colors
    }

    pub fn attributes(&self) -> (r: AttributeSet)
        ensures
            r == self.spec_attributes(),
    {
        self.attributes
    }
}

pub open spec fn style_text(s: Style) -> Seq<char> {
    colors_text(s.spec_colors()) + attributes_text(
        listing().filter(|a: Attribute| s.spec_attributes()@.contains(a)),
    )
}

/// Sets a whole style: its colors, then its attributes.
pub struct SetStyle(pub Style);

impl Command for SetStyle {
    open spec fn ansi(&self) -> Seq<char> {
        style_text(self.0)
    }

    fn write(&self, out: &mut String) {
        let ghost start = out@;
        SetColors(self.0.colors()).write(out);
        SetAttributes(self.0.attributes()).write(out);
        assert(out@ =~= start + style_text(self.0));
    }
}

/// Content with a style.
pub struct StyledContent<ContentTy> {
    pub style: Style,
    pub content: ContentTy,
}

impl<ContentTy> StyledContent<ContentTy> {
    /// The content with no color and no attribute.
    pub fn new(content: ContentTy) -> (r: Self)
        ensures
            r.style.colors == (Colors { bg: None, fg: None, ul: None }),
            r.style.attributes.mask == 0,
            r.content == content,
    {
        StyledContent { style: Style::new(Colors::new(), AttributeSet::new()), content }
    }

    pub fn content(&self) -> (r: &ContentTy)
        ensures
            *r == self.content,
    {
        &self.content
    }
}

/// Things that have a style.
pub trait AsStyle {
    spec fn spec_style_of(&self) -> Style;

    fn style(&self) -> (r: &Style)
        ensures
            *r == self.spec_style_of(),
    ;
}

/// Things whose style can be changed in place.
pub trait AsStyleMut: AsStyle + Sized {
    /// The same thing with its style replaced by `style`.
    spec fn restyled(&self, style: Style) -> Self;

    fn style_mut(&mut self) -> (r: &mut Style)
        ensures
            *r == old(self).spec_style_of(),
            *final(self) == old(self).restyled(*final(r)),
    ;
}

impl<ContentTy> AsStyle for StyledContent<ContentTy> {
    open spec fn spec_style_of(&self) -> Style {
        self.style
    }

    fn style(&self) -> (r: &Style) {
        &self.style
    }
}

impl<ContentTy> AsStyleMut for StyledContent<ContentTy> {
    open spec fn restyled(&self, style: Style) -> Self {
        StyledContent { style, content: self.content }
    }

    fn style_mut(&mut self) -> (r: &mut Style) {
        &mut self.style
    }
}

/// `s` with `f` as its foreground color.
pub open spec fn with_fg(s: Style, f: Color) -> Style {
    Style { colors: Colors { fg: Some(f), ..s.colors }, ..s }
}

/// `s` with `b` as its background color.
pub open spec fn with_bg(s: Style, b: Color) -> Style {
    Style { colors: Colors { bg: Some(b), ..s.colors }, ..s }
}

/// `s` with `u` as its underline color.
pub open spec fn with_ul(s: Style, u: Color) -> Style {
    Style { colors: Colors { ul: Some(u), ..s.colors }, ..s }
}

/// `s` with the attribute bits of `mask` added.
pub open spec fn with_mask(s: Style, mask: u32) -> Style {
    Style { attributes: AttributeSet { mask: s.attributes.mask | mask }, ..s }
}

/// Things that can be given a style.
pub trait Stylized: Sized {
    type Styled: AsStyleMut;

    spec fn spec_stylize(self) -> Self::Styled;

    /// The thing with a style.
    fn stylize(self) -> (r: Self::Styled)
        ensures
            r == self.spec_stylize(),
    ;

    /// Styled, with `foreground` as the foreground color.
    fn with(self, foreground: Color) -> (r: Self::Styled)
        ensures
            r == self.spec_stylize().restyled(with_fg(self.spec_stylize().spec_style_of(), foreground)),
    {
        let mut styled = self.stylize();
        let style = styled.style_mut();
        style.colors.fg = Some(foreground);
        styled
    }

    /// Styled, with `background` as the background color.
    fn on(self, background: Color) -> (r: Self::Styled)
        ensures
            r == self.spec_stylize().restyled(with_bg(self.spec_stylize().spec_style_of(), background)),
    {
        let mut styled = self.stylize();
        let style = styled.style_mut();
        style.colors.bg = Some(background);
        styled
    }

    /// Styled, with `underline` as the underline color.
    fn underline(self, underline: Color) -> (r: Self::Styled)
        ensures
            r == self.spec_stylize().restyled(with_ul(self.spec_stylize().spec_style_of(), underline)),
    {
        let mut styled = self.stylize();
        let style = styled.style_mut();
        style.colors.ul = Some(underline);
        styled
    }

    /// Styled, with `attribute` added.
    fn attribute(self, attribute: Attribute) -> (r: Self::Styled)
        ensures
            r == self.spec_stylize().restyled(
                with_mask(self.spec_stylize().spec_style_of(), crate::attributes::bit_of(attribute)),
            ),
    {
        let mut styled = self.stylize();
        let style = styled.style_mut();
        style.attributes.insert(attribute);
        styled
    }

    /// Styled, with the attributes of `attributes` added.
    fn attributes(self, attributes: AttributeSet) -> (r: Self::Styled)
        ensures
            r == self.spec_stylize().restyled(with_mask(self.spec_stylize().spec_style_of(), attributes.mask)),
    {
        let mut styled = self.stylize();
        let style = styled.style_mut();
        style.attributes.extend(attributes);
        styled
    }
}

impl Stylized for &'static str {
    type Styled = StyledContent<&'static str>;

    open spec fn spec_stylize(self) -> StyledContent<&'static str> {
        StyledContent { style: Style { colors: Colors { bg: None, fg: None, ul: None }, attributes: AttributeSet { mask: 0 } }, content: self }
    }

    fn stylize(self) -> (r: StyledContent<&'static str>) {
        let r = StyledContent::new(self);
        assert(r.style =~= self.spec_stylize().style);
        r
    }
}

impl Stylized for String {
    type Styled = StyledContent<String>;

    open spec fn spec_stylize(self) -> StyledContent<String> {
        StyledContent { style: Style { colors: Colors { bg: None, fg: None, ul: None }, attributes: AttributeSet { mask: 0 } }, content: self }
    }

    fn stylize(self) -> (r: StyledContent<String>) {
        StyledContent::new(self)
    }
}

impl<ContentTy> Stylized for StyledContent<ContentTy> {
    type Styled = Self;

    open spec fn spec_stylize(self) -> Self {
        self
    }

    fn stylize(self) -> (r: Self) {
        self
    }
}

/// What undoes a style after its content: a full reset when attributes are set, else the
/// default background and foreground for the colors that were set.
pub open spec fn restore_text(s: Style) -> Seq<char> {
    if s.spec_attributes().mask != 0 {
        csi_text() + "0m"@
    } else {
        (if s.spec_colors().bg is Some {
            sgr_text(background_params(Color::Reset))
        } else {
            Seq::empty()
        }) + (if s.spec_colors().fg is Some || s.spec_colors().ul is Some {
            sgr_text(foreground_params(Color::Reset))
        } else {
            Seq::empty()
        })
    }
}

impl Command for StyledContent<String> {
    open spec fn ansi(&self) -> Seq<char> {
        style_text(self.style) + self.content@ + restore_text(self.style)
    }

    fn write(&self, out: &mut String) {
        let ghost start = out@;
        SetStyle(self.style).write(out);
        push_str(out, self.content.as_str());
        let ghost mid = out@;
        if !self.style.attributes.is_empty() {
            ResetColor.write(out);
        } else {
            if self.style.colors.bg.is_some() {
                SetBackgroundColor(Color::Reset).write(out);
            }
            if self.style.colors.fg.is_some() || self.style.colors.ul.is_some() {
                SetForegroundColor(Color::Reset).write(out);
            }
            assert(out@ =~= mid + restore_text(self.style));
        }
        assert(out@ =~= start + self.ansi());
    }
}

} // verus!
