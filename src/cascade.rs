//! The style cascade: what a style, a region and a paragraph's inline
//! children resolve to, and the caption that a shown paragraph carries.
use vstd::prelude::*;
use crate::color::{color_of_hex, hex_to_color};
use crate::document::{region_by_id, style_by_id, Choice, Region, Style, P, TT};
use crate::style::ResolvedStyle;
use crate::text::{pair_around, split_pair};

verus! {

/// A colour attribute as rendered: the CSS form of a hex literal, any
/// other text as written.
pub open spec fn color_value(v: Seq<char>) -> Seq<char> {
    match color_of_hex(v) {
        Some(c) => c,
        None => v,
    }
}

/// `m` with `name` set to the attribute's text, when the attribute is there.
pub open spec fn with_text(
    m: Map<Seq<char>, Seq<char>>,
    name: Seq<char>,
    v: Option<String>,
) -> Map<Seq<char>, Seq<char>> {
    match v {
        Some(t) => m.insert(name, t@),
        None => m,
    }
}

/// `m` with `name` set to the attribute's colour, when the attribute is there.
pub open spec fn with_color(
    m: Map<Seq<char>, Seq<char>>,
    name: Seq<char>,
    v: Option<String>,
) -> Map<Seq<char>, Seq<char>> {
    match v {
        Some(t) => m.insert(name, color_value(t@)),
        None => m,
    }
}

/// The properties that a style sets; an absent attribute sets nothing.
pub open spec fn style_props(s: Style) -> Map<Seq<char>, Seq<char>> {
    let m = with_color(Map::empty(), "background-color"@, s.background_color);
    let m = with_text(m, "font-family"@, s.font_family);
    let m = with_text(m, "font-size"@, s.font_size);
    let m = with_text(m, "font-style"@, s.font_style);
    let m = with_text(m, "font-weight"@, s.font_weight);
    let m = with_text(m, "text-align"@, s.text_align);
    with_color(m, "color"@, s.color)
}

/// The properties of the style that `id` names; none when it names nothing.
pub open spec fn style_ref(tt: Option<TT>, id: Seq<char>) -> Map<Seq<char>, Seq<char>> {
    match tt {
        Some(t) => match style_by_id(t, id) {
            Some(s) => style_props(s),
            None => Map::empty(),
        },
        None => Map::empty(),
    }
}

/// `m` with the two halves of a `"A B"` attribute under `first` and `second`.
pub open spec fn with_pair(
    m: Map<Seq<char>, Seq<char>>,
    first: Seq<char>,
    second: Seq<char>,
    v: Option<String>,
) -> Map<Seq<char>, Seq<char>> {
    match v {
        Some(t) => match pair_around(t@, ' ') {
            Some(p) => m.insert(first, p.0).insert(second, p.1),
            None => m,
        },
        None => m,
    }
}

/// The properties of a region: its origin as `left`/`top`, its extent as
/// `width`/`height`, then the properties of its style over them.
pub open spec fn region_props(tt: Option<TT>, r: Region) -> Map<Seq<char>, Seq<char>> {
    let m = with_pair(Map::empty(), "left"@, "top"@, r.origin);
    let m = with_pair(m, "width"@, "height"@, r.extent);
    match r.style {
        Some(id) => m.union_prefer_right(style_ref(tt, id@)),
        None => m,
    }
}

/// The properties of the region that `id` names; none when it names nothing.
pub open spec fn region_ref(tt: Option<TT>, id: Seq<char>) -> Map<Seq<char>, Seq<char>> {
    match tt {
        Some(t) => match region_by_id(t, id) {
            Some(r) => region_props(tt, r),
            None => Map::empty(),
        },
        None => Map::empty(),
    }
}

/// One line element of a caption body.
pub enum Row {
    Span { style: ResolvedStyle, text: String },
    LineBreak,
}

pub enum RowView {
    Span { style: Map<Seq<char>, Seq<char>>, text: Seq<char> },
    LineBreak,
}

impl View for Row {
    type V = RowView;

    open spec fn view(&self) -> RowView {
        match self {
            Row::Span { style, text } => RowView::Span { style: style@, text: text@ },
            Row::LineBreak => RowView::LineBreak,
        }
    }
}

impl Row {
    pub open spec fn wf(&self) -> bool {
        match self {
            Row::Span { style, .. } => style.wf(),
            Row::LineBreak => true,
        }
    }

    /// A copy of this row.
    pub fn copy(&self) -> (r: Row)
        requires
            self.wf(),
        ensures
            r.wf(),
            r@ == self@,
    {
        match self {
            Row::Span { style, text } => Row::Span { style: style.copy(), text: text.clone() },
            Row::LineBreak => Row::LineBreak,
        }
    }
}

/// The row that one inline child gives: a span in its referenced style
/// (its text, or nothing when it has none), or a line break.
pub open spec fn row_of(tt: Option<TT>, c: Choice) -> RowView {
    match c {
        Choice::Span(s) => RowView::Span {
            style: style_ref(tt, s.style@),
            text: match s.text {
                Some(t) => t@,
                None => Seq::empty(),
            },
        },
        Choice::Br(_) => RowView::LineBreak,
    }
}

/// The rows of a paragraph's children, in document order.
pub open spec fn rows_of(tt: Option<TT>, cs: Seq<Choice>) -> Seq<RowView>
    decreases cs.len(),
{
    if cs.len() == 0 {
        Seq::empty()
    } else {
        rows_of(tt, cs.drop_last()).push(row_of(tt, cs.last()))
    }
}

/// The rows of a paragraph.
pub open spec fn paragraph_rows(tt: Option<TT>, p: P) -> Seq<RowView> {
    match p.children {
        Some(cs) => rows_of(tt, cs@),
        None => Seq::empty(),
    }
}

/// What a shown caption carries: the document-wide defaults, its region's
/// properties, and its rows.
pub struct Caption {
    pub default_style: ResolvedStyle,
    pub region_style: ResolvedStyle,
    pub rows: Vec<Row>,
}

pub struct CaptionView {
    pub default_style: Map<Seq<char>, Seq<char>>,
    pub region_style: Map<Seq<char>, Seq<char>>,
    pub rows: Seq<RowView>,
}

impl View for Caption {
    type V = CaptionView;

    open spec fn view(&self) -> CaptionView {
        CaptionView {
            default_style: self.default_style@,
            region_style: self.region_style@,
            rows: self.rows@.map_values(|r: Row| r@),
        }
    }
}

impl Caption {
    pub open spec fn wf(&self) -> bool {
        &&& self.default_style.wf()
        &&& self.region_style.wf()
        &&& forall|i: int| 0 <= i < self.rows@.len() ==> (#[trigger] self.rows@[i]).wf()
    }

    /// A copy of this caption.
    pub fn copy(&self) -> (r: Caption)
        requires
            self.wf(),
        ensures
            r.wf(),
            r@ == self@,
    {
        let mut rows: Vec<Row> = Vec::new();
        let mut i: usize = 0;
        while i < self.rows.len()
            invariant
                self.wf(),
                i <= self.rows.len(),
                rows@.len() == i,
                forall|j: int| 0 <= j < i ==> (#[trigger] rows@[j]).wf() && rows@[j]@ == self.rows@[j]@,
            decreases self.rows.len() - i,
        {
            let row = self.rows[i].copy();
            rows.push(row);
            i = i + 1;
        }
        assert(rows@.map_values(|x: Row| x@) =~= self.rows@.map_values(|x: Row| x@));
        Caption {
            default_style: self.default_style.copy(),
            region_style: self.region_style.copy(),
            rows,
        }
    }
}

/// A colour attribute as rendered; see `color_value`.
fn color_text(v: &String) -> (r: String)
    ensures
        r@ == color_value(v@),
{
    match hex_to_color(v.as_str()) {
        Some(c) => c,
        None => v.clone(),
    }
}

fn set_text(style: &mut ResolvedStyle, name: &str, v: &Option<String>)
    requires
        old(style).wf(),
    ensures
        final(style).wf(),
        final(style)@ == with_text(old(style)@, name@, *v),
{
    match v {
        Some(t) => style.set(name.to_owned(), t.clone()),
        None => {},
    }
}

fn set_color(style: &mut ResolvedStyle, name: &str, v: &Option<String>)
    requires
        old(style).wf(),
    ensures
        final(style).wf(),
        final(style)@ == with_color(old(style)@, name@, *v),
{
    match v {
        Some(t) => style.set(name.to_owned(), color_text(t)),
        None => {},
    }
}

pub fn set_pair(style: &mut ResolvedStyle, first: &str, second: &str, v: &Option<String>)
    requires
        old(style).wf(),
    ensures
        final(style).wf(),
        final(style)@ == with_pair(old(style)@, first@, second@, *v),
{
    match v {
        Some(t) => match split_pair(t.as_str(), ' ') {
            Some((a, b)) => {
                style.set(first.to_owned(), a);
                style.set(second.to_owned(), b);
            },
            None => {},
        },
        None => {},
    }
}

/// The properties that `st` sets; see `style_props`.
pub fn style_properties(st: &Style) -> (r: ResolvedStyle)
    ensures
        r.wf(),
        r@ == style_props(*st),
{
    let mut r = ResolvedStyle::new();
    set_color(&mut r, "background-color", &st.background_color);
    set_text(&mut r, "font-family", &st.font_family);
    set_text(&mut r, "font-size", &st.font_size);
    set_text(&mut r, "font-style", &st.font_style);
    set_text(&mut r, "font-weight", &st.font_weight);
    set_text(&mut r, "text-align", &st.text_align);
    set_color(&mut r, "color", &st.color);
    r
}

} // verus!
