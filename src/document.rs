//! The caption document model: styles, regions and timed paragraphs, as a
//! markup reader hands them over.
use vstd::prelude::*;

verus! {

pub struct DocumentMetadata {
    pub conforms_to_standard: String,
    pub document_country_of_origin: String,
}

pub struct Metadata {
    pub ppd: String,
    pub document_metadata: DocumentMetadata,
}

/// A named set of presentation attributes; an absent attribute is `None`.
pub struct Style {
    pub id: String,
    pub font_family: Option<String>,
    pub font_size: Option<String>,
    pub font_style: Option<String>,
    pub font_weight: Option<String>,
    pub text_decoration: Option<String>,
    pub color: Option<String>,
    pub text_align: Option<String>,
    pub background_color: Option<String>,
}

pub struct Styling {
    pub styles: Vec<Style>,
}

/// A named area of the display, optionally tied to a style.
pub struct Region {
    pub id: String,
    pub origin: Option<String>,
    pub extent: Option<String>,
    pub padding: Option<String>,
    pub display_align: Option<String>,
    pub writing_mode: Option<String>,
    pub show_background: Option<String>,
    pub overflow: Option<String>,
    pub style: Option<String>,
}

pub struct Layout {
    pub regions: Vec<Region>,
}

pub struct Head {
    pub metadata: Metadata,
    pub styling: Styling,
    pub layout: Layout,
}

/// A run of text in one style.
pub struct Span {
    pub style: String,
    pub text: Option<String>,
}

/// A line break.
pub struct Br {}

/// One inline child of a paragraph.
pub enum Choice {
    Span(Span),
    Br(Br),
}

/// A caption: shown from `begin` to `end`, optionally in a region.
pub struct P {
    pub id: String,
    pub region: Option<String>,
    pub begin: String,
    pub end: String,
    pub children: Option<Vec<Choice>>,
}

pub struct Div {
    pub style: Option<String>,
    pub p: Vec<P>,
}

pub struct Body {
    pub style: Option<String>,
    pub div: Div,
}

/// A whole timed-text document.
pub struct TT {
    pub xmlns_tt: String,
    pub xmlns_ttp: String,
    pub xmlns_tts: String,
    pub xmlns_ebuttm: String,
    pub xmlns_ebutts: String,
    pub ttp_time_base: String,
    pub xml_lang: String,
    pub ttp_cell_resolution: String,
    pub head: Head,
    pub body: Body,
}

/// The map from each style id to the position of the last style with that
/// id.
pub open spec fn style_index_of(s: Seq<Style>) -> Map<Seq<char>, usize>
    decreases s.len(),
{
    if s.len() == 0 {
        Map::empty()
    } else {
        style_index_of(s.drop_last()).insert(s.last().id@, (s.len() - 1) as usize)
    }
}

/// The map from each region id to the position of the last region with
/// that id.
pub open spec fn region_index_of(s: Seq<Region>) -> Map<Seq<char>, usize>
    decreases s.len(),
{
    if s.len() == 0 {
        Map::empty()
    } else {
        region_index_of(s.drop_last()).insert(s.last().id@, (s.len() - 1) as usize)
    }
}

pub proof fn lemma_style_index_bounds(s: Seq<Style>)
    ensures
        forall|k: Seq<char>| #[trigger]
            style_index_of(s).contains_key(k) ==> style_index_of(s)[k] < s.len(),
    decreases s.len(),
{
    if s.len() > 0 {
        lemma_style_index_bounds(s.drop_last());
        assert forall|k: Seq<char>| #[trigger]
            style_index_of(s).contains_key(k) implies style_index_of(s)[k] < s.len() by {
            if k != s.last().id@ {
                assert(style_index_of(s.drop_last()).contains_key(k));
            }
        }
    }
}

pub proof fn lemma_region_index_bounds(s: Seq<Region>)
    ensures
        forall|k: Seq<char>| #[trigger]
            region_index_of(s).contains_key(k) ==> region_index_of(s)[k] < s.len(),
    decreases s.len(),
{
    if s.len() > 0 {
        lemma_region_index_bounds(s.drop_last());
        assert forall|k: Seq<char>| #[trigger]
            region_index_of(s).contains_key(k) implies region_index_of(s)[k] < s.len() by {
            if k != s.last().id@ {
                assert(region_index_of(s.drop_last()).contains_key(k));
            }
        }
    }
}

/// The style that `id` names in `tt`, if any.
pub open spec fn style_by_id(tt: TT, id: Seq<char>) -> Option<Style> {
    let styles = tt.head.styling.styles@;
    if style_index_of(styles).contains_key(id) {
        Some(styles[style_index_of(styles)[id] as int])
    } else {
        None
    }
}

/// The region that `id` names in `tt`, if any.
pub open spec fn region_by_id(tt: TT, id: Seq<char>) -> Option<Region> {
    let regions = tt.head.layout.regions@;
    if region_index_of(regions).contains_key(id) {
        Some(regions[region_index_of(regions)[id] as int])
    } else {
        None
    }
}

} // verus!
