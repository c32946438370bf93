//! Choosing, for each character of a text, the font of a fallback chain
//! that renders it.
use vstd::prelude::*;
use vstd::string::*;

verus! {

/// A parsed typeface. Its tables are never read here; only its glyph
/// lookup is used.
#[verifier::external_type_specification]
#[verifier::external_body]
pub struct ExFont<'a>(rusttype::Font<'a>);

/// The character whose glyph in the primary font stands for a character
/// that no font of the chain has.
pub const REPLACEMENT: char = '\u{FFFD}';

/// The character map of a font: the characters it has a glyph for, each
/// with the identifier of that glyph.
pub uninterp spec fn glyph_table(font: rusttype::Font<'static>) -> Map<char, u16>;

/// The identifier of the glyph that `font` has for `ch`, or 0, the
/// identifier of the "glyph not found" marker, where it has none.
pub open spec fn glyph_in(font: rusttype::Font<'static>, ch: char) -> u16 {
    if glyph_table(font).dom().contains(ch) {
        glyph_table(font)[ch]
    } else {
        0
    }
}

/// The font of a chain that renders a character, by its index in the
/// chain, and the identifier of the glyph in that font.
#[derive(Debug, Clone, Copy, PartialEq, Eq, Structural)]
pub struct GlyphChoice {
    pub font: usize,
    pub glyph: u16,
}

/// The kerning that goes before a glyph: the font whose table spaces the
/// pair, and the glyph before. Kerning tables of two fonts cannot be
/// compared, so the table is that of the font that rendered the earlier
/// glyph.
#[derive(Debug, Clone, Copy, PartialEq, Eq, Structural)]
pub struct Kerning {
    pub font: usize,
    pub before: u16,
}

/// One step of a layout: the glyph to place and the kerning to apply
/// before it, if any.
#[derive(Debug, Clone, Copy, PartialEq, Eq, Structural)]
pub struct LayoutStep {
    pub choice: GlyphChoice,
    pub kerning: Option<Kerning>,
}

/// The kerning before step `k` of a layout: none before the first glyph,
/// else that of the glyph before, by the font that rendered it.
pub open spec fn kerning_before(steps: Seq<LayoutStep>, k: int) -> Option<Kerning> {
    if k <= 0 {
        None
    } else {
        Some(Kerning { font: steps[k - 1].choice.font, before: steps[k - 1].choice.glyph })
    }
}

/// Whether some font of the chain has a usable glyph for `ch`.
pub open spec fn covered(fonts: Seq<rusttype::Font<'static>>, ch: char) -> bool {
    exists|i: int| 0 <= i < fonts.len() && glyph_in(#[trigger] fonts[i], ch) != 0
}

/// Whether `choice` is what the chain renders `ch` with: the first font
/// that has a usable glyph for it and that glyph, or, where no font has
/// one, the primary font and its glyph for the replacement character.
pub open spec fn is_choice_for(fonts: Seq<rusttype::Font<'static>>, ch: char, choice: GlyphChoice) -> bool {
    &&& 0 <= choice.font < fonts.len()
    &&& forall|j: int| 0 <= j < choice.font ==> glyph_in(#[trigger] fonts[j], ch) == 0
    &&& if glyph_in(fonts[choice.font as int], ch) != 0 {
        choice.glyph == glyph_in(fonts[choice.font as int], ch)
    } else {
        &&& !covered(fonts, ch)
        &&& choice.font == 0
        &&& choice.glyph == glyph_in(fonts[0], REPLACEMENT)
    }
}

/// Looks `ch` up in the character map of `font` with rusttype's
/// `IntoGlyphId::into_glyph_id` for `char`. The result is the identifier
/// that the map gives, and 0 for a character the map does not hold.
#[verifier::external_body]
fn glyph_index(font: &rusttype::Font<'static>, ch: char) -> (id: u16)
    ensures
        id == (if glyph_table(*font).dom().contains(ch) {
            glyph_table(*font)[ch]
        } else {
            0
        }),
{
    rusttype::IntoGlyphId::into_glyph_id(ch, font).0
}

/// Picks the font that renders `ch`: the chain is scanned in order and the
/// first font with a usable glyph wins. Where none has one, the primary
/// font's replacement glyph is used.
pub fn resolve_glyph(fonts: &[rusttype::Font<'static>], ch: char) -> (choice: GlyphChoice)
    requires
        fonts@.len() > 0,
    ensures
        is_choice_for(fonts@, ch, choice),
{
    let mut i: usize = 0;
    while i < fonts.len()
        invariant
            i <= fonts@.len(),
            forall|j: int| 0 <= j < i ==> glyph_in(#[trigger] fonts@[j], ch) == 0,
        decreases fonts@.len() - i,
    {
        let id: u16 = glyph_index(&fonts[i], ch);
        if id != 0 {
            return GlyphChoice { font: i, glyph: id };
        }
        i += 1;
    }
    GlyphChoice { font: 0, glyph: glyph_index(&fonts[0], REPLACEMENT) }
}

/// Picks a font and glyph for every character of `text`, in order. A text
/// is read character by character, not byte by byte. With no font at all
/// nothing can be rendered and the result is empty.
pub fn resolve_text(fonts: &[rusttype::Font<'static>], text: &str) -> (choices: Vec<GlyphChoice>)
    ensures
        fonts@.len() == 0 ==> choices@.len() == 0,
        fonts@.len() > 0 ==> choices@.len() == text@.len(),
        forall|k: int| 0 <= k < choices@.len() ==> is_choice_for(fonts@, text@[k], #[trigger] choices@[k]),
{
    let mut choices: Vec<GlyphChoice> = Vec::new();
    if fonts.len() == 0 {
        return choices;
    }
    let n: usize = text.unicode_len();
    let mut k: usize = 0;
    while k < n
        invariant
            k <= n,
            n == text@.len(),
            fonts@.len() > 0,
            choices@.len() == k,
            forall|m: int| 0 <= m < k ==> is_choice_for(fonts@, text@[m], #[trigger] choices@[m]),
        decreases n - k,
    {
        let choice = resolve_glyph(fonts, text.get_char(k));
        choices.push(choice);
        k += 1;
    }
    choices
}

/// Steps through a text for the layout: for every character the font and
/// glyph that render it and the kerning that goes before it. The first
/// glyph has no kerning. Every later glyph is kerned against the glyph
/// before it by the font that rendered that earlier glyph.
pub fn plan_layout(fonts: &[rusttype::Font<'static>], text: &str) -> (steps: Vec<LayoutStep>)
    ensures
        fonts@.len() == 0 ==> steps@.len() == 0,
        fonts@.len() > 0 ==> steps@.len() == text@.len(),
        forall|k: int| 0 <= k < steps@.len() ==> is_choice_for(fonts@, text@[k], (#[trigger] steps@[k]).choice),
        forall|k: int| 0 <= k < steps@.len() ==> (#[trigger] steps@[k]).kerning == kerning_before(steps@, k),
{
    let choices = resolve_text(fonts, text);
    let mut steps: Vec<LayoutStep> = Vec::new();
    let mut k: usize = 0;
    while k < choices.len()
        invariant
            k <= choices@.len(),
            steps@.len() == k,
            forall|m: int| 0 <= m < k ==> (#[trigger] steps@[m]).choice == choices@[m],
            forall|m: int| 0 <= m < k ==> (#[trigger] steps@[m]).kerning == kerning_before(steps@, m),
        decreases choices@.len() - k,
    {
        let kerning: Option<Kerning> = if k == 0 {
            None
        } else {
            Some(Kerning { font: choices[k - 1].font, before: choices[k - 1].glyph })
        };
        let ghost earlier = steps@;
        steps.push(LayoutStep { choice: choices[k], kerning });
        proof {
            assert forall|m: int| 0 <= m < k + 1 implies (#[trigger] steps@[m]).kerning == kerning_before(
                steps@,
                m,
            ) by {
                if m < k {
                    assert(steps@[m] == earlier[m]);
                    assert(kerning_before(earlier, m) == kerning_before(steps@, m)) by {
                        if m > 0 {
                            assert(steps@[m - 1] == earlier[m - 1]);
                        }
                    }
                }
            }
        }
        k += 1;
    }
    steps
}

/// The first font of the chain to have a usable glyph for a character is
/// the one chosen for it, whatever follows it in the chain.
pub proof fn lemma_first_font_wins(fonts: Seq<rusttype::Font<'static>>, ch: char, choice: GlyphChoice, i: int)
    requires
        is_choice_for(fonts, ch, choice),
        0 <= i < fonts.len(),
        glyph_in(fonts[i], ch) != 0,
        forall|j: int| 0 <= j < i ==> glyph_in(#[trigger] fonts[j], ch) == 0,
    ensures
        choice.font == i,
        choice.glyph == glyph_in(fonts[i], ch),
{
    if choice.font < i {
        assert(glyph_in(fonts[choice.font as int], ch) == 0);
        assert(covered(fonts, ch));
    } else if choice.font > i {
        assert(glyph_in(fonts[i], ch) == 0);
    }
}

/// The choice for a character is unique: two choices that both meet the
/// rule are the same.
pub proof fn lemma_choice_unique(fonts: Seq<rusttype::Font<'static>>, ch: char, a: GlyphChoice, b: GlyphChoice)
    requires
        is_choice_for(fonts, ch, a),
        is_choice_for(fonts, ch, b),
    ensures
        a == b,
{
    if glyph_in(fonts[a.font as int], ch) != 0 {
        lemma_first_font_wins(fonts, ch, b, a.font as int);
    } else if glyph_in(fonts[b.font as int], ch) != 0 {
        lemma_first_font_wins(fonts, ch, a, b.font as int);
    }
}

} // verus!
