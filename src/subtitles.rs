//! The playback controller: loads a caption document, turns its paragraphs
//! into enter and exit cues, and on each reported position decides which
//! captions to show, with their resolved styles, and which to hide.
use vstd::prelude::*;
use vstd::hash_map::StringHashMap;
use vstd::hash_set::StringHashSet;
use crate::cascade::{
    paragraph_rows, region_ref, rows_of, set_pair, style_properties, style_ref, Caption, CaptionView, Row,
    RowView,
};
use crate::cuepoints::{
    decayed, evaluated, fired_cues, fires, has_id, in_window, Cuepoint, CuepointView, Cuepoints,
};
use crate::document::{
    lemma_region_index_bounds, lemma_style_index_bounds, region_index_of, style_index_of, Choice,
    Region, Style, P, TT,
};
use crate::style::ResolvedStyle;
use crate::text::{
    chars_of, digits_value, int_text, is_digits, pair_around, parse_digits, parse_signed, push_int,
    signed_value, split_pair,
};
use crate::timecode::{time_to_ms, timecode_value};

verus! {

/// Grid columns used when the document declares no cell resolution.
pub const DEFAULT_COLUMNS: usize = 40;

/// Grid rows used when the document declares no cell resolution.
pub const DEFAULT_ROWS: usize = 24;

/// Early tolerance of a caption's enter cue, in milliseconds.
pub const BEGIN_NEGATIVE_MARGIN: i32 = 0;

/// Late tolerance of a caption's enter cue, in milliseconds.
pub const BEGIN_POSITIVE_MARGIN: i32 = 500;

/// Early tolerance of a caption's exit cue, in milliseconds.
pub const END_NEGATIVE_MARGIN: i32 = 0;

/// Late tolerance of a caption's exit cue, in milliseconds.
pub const END_POSITIVE_MARGIN: i32 = 500;

/// What a fired cue does: show or hide the paragraph at `index`.
#[derive(Debug, Clone, Copy, PartialEq, Eq, Structural)]
pub struct SubtilesAction {
    pub index: usize,
    pub is_show_action: bool,
}

/// The document's cell grid.
#[derive(Debug, Clone, Copy, PartialEq, Eq, Structural)]
pub struct CellResolution {
    pub columns: usize,
    pub rows: usize,
}

#[derive(Debug, Clone, Copy, PartialEq, Eq, Structural)]
pub struct TTRootConfig {
    pub cell_resolution: CellResolution,
}

/// The size of the rendering surface in device pixels.
#[derive(Debug, Clone, Copy, PartialEq, Eq, Structural)]
pub struct ElementSize {
    pub width: i32,
    pub height: i32,
}

/// A direction on the cell grid.
#[derive(Debug, Clone, Copy, PartialEq, Eq, Structural)]
pub enum Axis {
    X,
    Y,
}

/// `a / b` rounded toward zero, as integer division does.
pub open spec fn trunc_div(a: int, b: int) -> int {
    if a >= 0 {
        a / b
    } else {
        -((-a) / b)
    }
}

/// The number of cells that a measure such as `"2c"` gives: its last
/// character (the unit) is dropped and the rest read as an `i32`; anything
/// else counts as zero.
pub open spec fn cell_count(value: Seq<char>) -> int {
    if value.len() == 0 {
        0
    } else {
        match signed_value(value.drop_last()) {
            Some(n) => n,
            None => 0,
        }
    }
}

/// Whether a timecode can be read as an `i32` offset.
pub open spec fn readable(t: Seq<char>) -> bool {
    match timecode_value(t) {
        Some(v) => v <= i32::MAX,
        None => false,
    }
}

/// The target of a cue at a timecode: its offset, or `-1` when the timecode
/// cannot be read.
pub open spec fn ms_or_sentinel(t: Seq<char>) -> i32 {
    match timecode_value(t) {
        Some(v) => if v <= i32::MAX {
            v as i32
        } else {
            -1i32
        },
        None => -1i32,
    }
}

/// A margin of a caption cue: the caption class's margin when its timecode
/// can be read; unset otherwise, so that the registry's defaults keep the
/// window of the `-1` target below every playback position.
pub open spec fn caption_margin(t: Seq<char>, m: i32) -> Option<i32> {
    if readable(t) {
        Some(m)
    } else {
        None
    }
}

/// The cue that shows paragraph `p`: `in-` and its id, at its begin time.
pub open spec fn enter_cue(p: P) -> CuepointView {
    CuepointView {
        id: "in-"@ + p.id@,
        ms: ms_or_sentinel(p.begin@),
        timestopass: 0,
        negativemargin: caption_margin(p.begin@, BEGIN_NEGATIVE_MARGIN),
        positivemargin: caption_margin(p.begin@, BEGIN_POSITIVE_MARGIN),
        once: false,
    }
}

/// The cue that hides paragraph `p`: `out-` and its id, at its end time.
pub open spec fn exit_cue(p: P) -> CuepointView {
    CuepointView {
        id: "out-"@ + p.id@,
        ms: ms_or_sentinel(p.end@),
        timestopass: 0,
        negativemargin: caption_margin(p.end@, END_NEGATIVE_MARGIN),
        positivemargin: caption_margin(p.end@, END_POSITIVE_MARGIN),
        once: false,
    }
}

/// A caption cue whose timecode cannot be read is inert: no playback
/// position from zero on lies in its window.
pub proof fn lemma_unreadable_cue_inert(p: P, ms: int)
    requires
        ms >= 0,
    ensures
        !readable(p.begin@) ==> !in_window(enter_cue(p), ms),
        !readable(p.end@) ==> !in_window(exit_cue(p), ms),
{
}

/// The registry after inserting `c`, which is refused when its id is taken.
pub open spec fn add_cue(s: Seq<CuepointView>, c: CuepointView) -> Seq<CuepointView> {
    if has_id(s, c.id) {
        s
    } else {
        s.push(c)
    }
}

/// The action table after inserting `c` into registry `s` with action `a`:
/// an entry is made only when the registry takes the cue.
pub open spec fn add_action(
    t: Map<Seq<char>, SubtilesAction>,
    s: Seq<CuepointView>,
    c: CuepointView,
    a: SubtilesAction,
) -> Map<Seq<char>, SubtilesAction> {
    if has_id(s, c.id) {
        t
    } else {
        t.insert(c.id, a)
    }
}

/// The registry and action table that a list of paragraphs gives: for each
/// paragraph in order, its enter cue (a show action), then its exit cue (a
/// hide action).
pub open spec fn loaded(ps: Seq<P>) -> (Seq<CuepointView>, Map<Seq<char>, SubtilesAction>)
    decreases ps.len(),
{
    if ps.len() == 0 {
        (Seq::empty(), Map::empty())
    } else {
        let prev = loaded(ps.drop_last());
        let p = ps.last();
        let i = (ps.len() - 1) as usize;
        let t1 = add_action(
            prev.1,
            prev.0,
            enter_cue(p),
            SubtilesAction { index: i, is_show_action: true },
        );
        let s1 = add_cue(prev.0, enter_cue(p));
        let t2 = add_action(t1, s1, exit_cue(p), SubtilesAction { index: i, is_show_action: false });
        (add_cue(s1, exit_cue(p)), t2)
    }
}

/// The grid that a `"columns rows"` attribute declares; the default grid
/// unless it is two positive `i32` counts.
pub open spec fn declared_grid(s: Seq<char>) -> CellResolution {
    match pair_around(s, ' ') {
        Some(p) => if is_digits(p.0) && is_digits(p.1) && 0 < digits_value(p.0) <= i32::MAX && 0
            < digits_value(p.1) <= i32::MAX {
            CellResolution {
                columns: digits_value(p.0) as usize,
                rows: digits_value(p.1) as usize,
            }
        } else {
            CellResolution { columns: DEFAULT_COLUMNS, rows: DEFAULT_ROWS }
        },
        None => CellResolution { columns: DEFAULT_COLUMNS, rows: DEFAULT_ROWS },
    }
}

/// Reads a `"columns rows"` attribute; see `declared_grid`.
fn parse_grid(s: &str) -> (r: CellResolution)
    ensures
        r == declared_grid(s@),
{
    let default = CellResolution { columns: DEFAULT_COLUMNS, rows: DEFAULT_ROWS };
    match split_pair(s, ' ') {
        Some((a, b)) => {
            let ca = chars_of(a.as_str());
            let cb = chars_of(b.as_str());
            match (parse_digits(&ca, 0x7fff_ffff), parse_digits(&cb, 0x7fff_ffff)) {
                (Some(c), Some(r)) => if c > 0 && r > 0 {
                    CellResolution { columns: c as usize, rows: r as usize }
                } else {
                    default
                },
                _ => default,
            }
        },
        None => default,
    }
}

/// The caption cue for `id` at timecode `t`, with margins `neg` and `pos`
/// when the timecode can be read.
fn caption_cue(id: String, t: &String, neg: i32, pos: i32) -> (r: Cuepoint)
    ensures
        r@ == (CuepointView {
            id: id@,
            ms: ms_or_sentinel(t@),
            timestopass: 0,
            negativemargin: caption_margin(t@, neg),
            positivemargin: caption_margin(t@, pos),
            once: false,
        }),
{
    match time_to_ms(t.as_str()) {
        Ok(v) => Cuepoint {
            id,
            ms: v,
            timestopass: 0,
            negativemargin: Some(neg),
            positivemargin: Some(pos),
            once: false,
        },
        Err(_) => Cuepoint {
            id,
            ms: -1,
            timestopass: 0,
            negativemargin: None,
            positivemargin: None,
            once: false,
        },
    }
}

fn prefixed(prefix: &str, id: &String) -> (r: String)
    ensures
        r@ == prefix@ + id@,
{
    let mut r = prefix.to_owned();
    r.append(id.as_str());
    r
}

/// A decision of the controller for the rendering surface.
pub enum SubtitleAction {
    /// Show caption `id` with `caption`, unless the surface already has it.
    Show { id: String, caption: Caption },
    /// Hide caption `id`; hiding a caption that is not shown does nothing.
    Hide { id: String },
}

pub enum ActionView {
    Show { id: Seq<char>, caption: CaptionView },
    Hide { id: Seq<char> },
}

impl View for SubtitleAction {
    type V = ActionView;

    open spec fn view(&self) -> ActionView {
        match self {
            SubtitleAction::Show { id, caption } => ActionView::Show { id: id@, caption: caption@ },
            SubtitleAction::Hide { id } => ActionView::Hide { id: id@ },
        }
    }
}

impl SubtitleAction {
    pub open spec fn wf(&self) -> bool {
        match self {
            SubtitleAction::Show { caption, .. } => caption.wf(),
            SubtitleAction::Hide { .. } => true,
        }
    }
}

/// The surface that captions are drawn on. `has` is the set of captions
/// on it, `calls` the shows and hides made on it so far, in order.
pub trait RenderSurface {
    spec fn has(&self, id: Seq<char>) -> bool;

    spec fn calls(&self) -> Seq<SurfaceCall>;

    /// Puts caption `id` on the surface.
    fn render_show(&mut self, id: &String, caption: &Caption)
        requires
            caption.wf(),
        ensures
            final(self).calls() == old(self).calls().push(SurfaceCall::Show(id@, caption@)),
            forall|k: Seq<char>| #[trigger] final(self).has(k) == (k == id@ || old(self).has(k)),
    ;

    /// Takes caption `id` off the surface; nothing happens to the others,
    /// and hiding a caption that is not there is no error.
    fn render_hide(&mut self, id: &String)
        ensures
            final(self).calls() == old(self).calls().push(SurfaceCall::Hide(id@)),
            forall|k: Seq<char>| #[trigger] final(self).has(k) == (k != id@ && old(self).has(k)),
    ;

    /// Whether caption `id` is on the surface.
    fn render_exists(&self, id: &String) -> (r: bool)
        ensures
            r == self.has(id@),
    ;
}

/// A show, with the caption handed over, or a hide made on a surface.
pub enum SurfaceCall {
    Show(Seq<char>, CaptionView),
    Hide(Seq<char>),
}

/// The captions on a surface.
pub open spec fn shown_set<S: RenderSurface>(s: S) -> Set<Seq<char>> {
    Set::new(|k: Seq<char>| s.has(k))
}

/// Carrying out `actions` in order on a surface that starts with the
/// captions `shown`: a show is made only when its caption is not on the
/// surface at that point, and puts it there; every hide is made, and takes
/// its caption off. The result is the calls made and the captions on the
/// surface afterwards.
pub open spec fn carry_out(actions: Seq<ActionView>, shown: Set<Seq<char>>) -> (
    Seq<SurfaceCall>,
    Set<Seq<char>>,
)
    decreases actions.len(),
{
    if actions.len() == 0 {
        (Seq::empty(), shown)
    } else {
        let prev = carry_out(actions.drop_last(), shown);
        match actions.last() {
            ActionView::Show { id, caption } => if prev.1.contains(id) {
                prev
            } else {
                (prev.0.push(SurfaceCall::Show(id, caption)), prev.1.insert(id))
            },
            ActionView::Hide { id } => (prev.0.push(SurfaceCall::Hide(id)), prev.1.remove(id)),
        }
    }
}

/// The hides among `actions`, in order.
pub open spec fn hides_of(actions: Seq<ActionView>) -> Seq<SurfaceCall>
    decreases actions.len(),
{
    if actions.len() == 0 {
        Seq::empty()
    } else {
        let rest = hides_of(actions.drop_last());
        match actions.last() {
            ActionView::Show { .. } => rest,
            ActionView::Hide { id } => rest.push(SurfaceCall::Hide(id)),
        }
    }
}

/// When each caption to show is already on the surface at the point its
/// show comes, carrying the decisions out makes no show at all: exactly one
/// hide per hide decision.
pub proof fn lemma_present_captions_not_shown(actions: Seq<ActionView>, shown: Set<Seq<char>>)
    requires
        forall|i: int|
            0 <= i < actions.len() ==> ((#[trigger] actions[i]) matches ActionView::Show { id, .. }
                ==> carry_out(actions.subrange(0, i), shown).1.contains(id)),
    ensures
        carry_out(actions, shown).0 == hides_of(actions),
    decreases actions.len(),
{
    if actions.len() > 0 {
        let d = actions.drop_last();
        assert forall|i: int|
            0 <= i < d.len() implies ((#[trigger] d[i]) matches ActionView::Show { id, .. }
                ==> carry_out(d.subrange(0, i), shown).1.contains(id)) by {
            assert(d[i] == actions[i]);
            assert(d.subrange(0, i) =~= actions.subrange(0, i));
        }
        lemma_present_captions_not_shown(d, shown);
        let n = actions.len() - 1;
        assert(actions.subrange(0, n) =~= d);
        assert(actions[n] == actions.last());
    }
}

/// A call as a surface in memory records it.
pub enum RenderCall {
    Show(String, Caption),
    Hide(String),
}

impl View for RenderCall {
    type V = SurfaceCall;

    open spec fn view(&self) -> SurfaceCall {
        match self {
            RenderCall::Show(id, caption) => SurfaceCall::Show(id@, caption@),
            RenderCall::Hide(id) => SurfaceCall::Hide(id@),
        }
    }
}

/// A rendering surface held in memory: the captions on it, and every show
/// and hide made on it, caption included.
pub struct MemorySurface {
    pub shown: StringHashSet,
    pub log: Vec<RenderCall>,
}

impl MemorySurface {
    /// An empty surface with no call made.
    pub fn new() -> (r: MemorySurface)
        ensures
            forall|k: Seq<char>| !r.has(k),
            r.calls() == Seq::<SurfaceCall>::empty(),
    {
        let r = MemorySurface { shown: StringHashSet::new(), log: Vec::new() };
        assert(r.calls() =~= Seq::<SurfaceCall>::empty());
        r
    }

    /// Hands out the calls recorded so far and forgets them; the captions on
    /// the surface stay.
    pub fn take_log(&mut self) -> (r: Vec<RenderCall>)
        ensures
            r@.map_values(|c: RenderCall| c@) == old(self).calls(),
            final(self).calls() == Seq::<SurfaceCall>::empty(),
            forall|k: Seq<char>| #[trigger] final(self).has(k) == old(self).has(k),
    {
        let mut r: Vec<RenderCall> = Vec::new();
        std::mem::swap(&mut r, &mut self.log);
        assert(self.calls() =~= Seq::<SurfaceCall>::empty());
        r
    }
}

impl RenderSurface for MemorySurface {
    open spec fn has(&self, id: Seq<char>) -> bool {
        self.shown@.contains(id)
    }

    open spec fn calls(&self) -> Seq<SurfaceCall> {
        self.log@.map_values(|c: RenderCall| c@)
    }

    fn render_show(&mut self, id: &String, caption: &Caption) {
        let ghost before = self.log@;
        self.log.push(RenderCall::Show(id.clone(), caption.copy()));
        assert(self.log@.map_values(|c: RenderCall| c@) =~= before.map_values(|c: RenderCall| c@).push(
            SurfaceCall::Show(id@, caption@),
        ));
        self.shown.insert(id.clone());
    }

    fn render_hide(&mut self, id: &String) {
        let ghost before = self.log@;
        self.log.push(RenderCall::Hide(id.clone()));
        assert(self.log@.map_values(|c: RenderCall| c@) =~= before.map_values(|c: RenderCall| c@).push(
            SurfaceCall::Hide(id@),
        ));
        self.shown.remove(id.as_str());
    }

    fn render_exists(&self, id: &String) -> (r: bool) {
        self.shown.contains(id.as_str())
    }
}

/// An evaluation of a registry whose cues are never once-only drops none
/// of them and decays each in place.
pub proof fn lemma_evaluated_in_place(s: Seq<CuepointView>, ms: int)
    requires
        forall|i: int| 0 <= i < s.len() ==> !(#[trigger] s[i]).once,
    ensures
        evaluated(s, ms).len() == s.len(),
        forall|i: int| 0 <= i < s.len() ==> #[trigger] evaluated(s, ms)[i] == decayed(s[i]),
    decreases s.len(),
{
    if s.len() > 0 {
        assert forall|i: int| 0 <= i < s.drop_last().len() implies !(#[trigger] s.drop_last()[i]).once by {
            assert(s.drop_last()[i] == s[i]);
        }
        lemma_evaluated_in_place(s.drop_last(), ms);
        assert(!s[s.len() - 1].once);
        assert forall|i: int| 0 <= i < s.len() implies #[trigger] evaluated(s, ms)[i] == decayed(s[i]) by {
            if i < s.len() - 1 {
                assert(s.drop_last()[i] == s[i]);
            }
        }
    }
}

/// Every cue of `s` decayed once.
pub open spec fn decay_all(s: Seq<CuepointView>) -> Seq<CuepointView> {
    s.map_values(|c: CuepointView| decayed(c))
}

/// With every countdown at most zero, the cues that fire are those whose
/// window holds `ms`, and those of the decayed registry have the same ids.
proof fn lemma_fired_after_decay(s: Seq<CuepointView>, ms: int)
    requires
        forall|i: int| 0 <= i < s.len() ==> (#[trigger] s[i]).timestopass <= 0,
    ensures
        fired_cues(decay_all(s), ms).len() == fired_cues(s, ms).len(),
        forall|i: int|
            0 <= i < fired_cues(s, ms).len() ==> (#[trigger] fired_cues(
                decay_all(s),
                ms,
            )[i]).id == fired_cues(s, ms)[i].id,
    decreases s.len(),
{
    if s.len() > 0 {
        let d = decay_all(s);
        assert(d.drop_last() =~= decay_all(s.drop_last()));
        assert forall|i: int| 0 <= i < s.drop_last().len() implies (#[trigger] s.drop_last()[i]).timestopass
            <= 0 by {
            assert(s.drop_last()[i] == s[i]);
        }
        lemma_fired_after_decay(s.drop_last(), ms);
        assert(s[s.len() - 1].timestopass <= 0);
        assert(d.last() == decayed(s.last()));
        assert(fires(d.last(), ms) == fires(s.last(), ms));
    }
}

/// The cue registry and action table of a list of paragraphs; see `loaded`.
fn add_cuepoints(ps: &Vec<P>) -> (r: (Cuepoints, StringHashMap<SubtilesAction>))
    ensures
        r.0.wf(),
        forall|j: int| 0 <= j < r.0@.len() ==> !(#[trigger] r.0@[j]).once && r.0@[j].timestopass <= 0,
        r.0@ == loaded(ps@).0,
        r.1@ == loaded(ps@).1,
{
    let mut cues = Cuepoints::new();
    let mut table: StringHashMap<SubtilesAction> = StringHashMap::new();
    let mut i: usize = 0;
    while i < ps.len()
        invariant
            i <= ps.len(),
            cues.wf(),
            forall|j: int|
                0 <= j < cues@.len() ==> !(#[trigger] cues@[j]).once && cues@[j].timestopass <= 0,
            cues@ == loaded(ps@.subrange(0, i as int)).0,
            table@ == loaded(ps@.subrange(0, i as int)).1,
        decreases ps.len() - i,
    {
        let p = &ps[i];
        assert(ps@.subrange(0, i + 1).drop_last() =~= ps@.subrange(0, i as int));
        let in_key = prefixed("in-", &p.id);
        let enter = caption_cue(in_key.clone(), &p.begin, BEGIN_NEGATIVE_MARGIN, BEGIN_POSITIVE_MARGIN);
        match cues.add_cuepoint(enter) {
            Ok(_) => {
                table.insert(in_key, SubtilesAction { index: i, is_show_action: true });
            },
            Err(_) => {},
        }
        let out_key = prefixed("out-", &p.id);
        let exit = caption_cue(out_key.clone(), &p.end, END_NEGATIVE_MARGIN, END_POSITIVE_MARGIN);
        match cues.add_cuepoint(exit) {
            Ok(_) => {
                table.insert(out_key, SubtilesAction { index: i, is_show_action: false });
            },
            Err(_) => {},
        }
        i = i + 1;
    }
    assert(ps@.subrange(0, ps.len() as int) =~= ps@);
    (cues, table)
}

/// The index from style id to position; see `style_index_of`.
fn get_styles(styles: &Vec<Style>) -> (r: StringHashMap<usize>)
    ensures
        r@ == style_index_of(styles@),
{
    let mut index: StringHashMap<usize> = StringHashMap::new();
    let mut j: usize = 0;
    while j < styles.len()
        invariant
            j <= styles.len(),
            index@ == style_index_of(styles@.subrange(0, j as int)),
        decreases styles.len() - j,
    {
        assert(styles@.subrange(0, j + 1).drop_last() =~= styles@.subrange(0, j as int));
        index.insert(styles[j].id.clone(), j);
        j = j + 1;
    }
    assert(styles@.subrange(0, styles.len() as int) =~= styles@);
    index
}

/// The index from region id to position; see `region_index_of`.
fn get_regions(regions: &Vec<Region>) -> (r: StringHashMap<usize>)
    ensures
        r@ == region_index_of(regions@),
{
    let mut index: StringHashMap<usize> = StringHashMap::new();
    let mut k: usize = 0;
    while k < regions.len()
        invariant
            k <= regions.len(),
            index@ == region_index_of(regions@.subrange(0, k as int)),
        decreases regions.len() - k,
    {
        assert(regions@.subrange(0, k + 1).drop_last() =~= regions@.subrange(0, k as int));
        index.insert(regions[k].id.clone(), k);
        k = k + 1;
    }
    assert(regions@.subrange(0, regions.len() as int) =~= regions@);
    index
}

/// The controller: the loaded document, its cue registry, the table from
/// cue id to action, the style and region indices, and the viewport.
pub struct Subtitles {
    pub tt: Option<TT>,
    pub cuepoints: Cuepoints,
    pub cuepoint_to_subtitles_action: StringHashMap<SubtilesAction>,
    pub styles_index: StringHashMap<usize>,
    pub region_index: StringHashMap<usize>,
    pub tt_root_config: TTRootConfig,
    pub element_size: ElementSize,
}

impl Subtitles {
    pub open spec fn wf(&self) -> bool {
        &&& self.cuepoints.wf()
        &&& forall|i: int|
            0 <= i < self.cuepoints@.len() ==> !(#[trigger] self.cuepoints@[i]).once
                && self.cuepoints@[i].timestopass <= 0
        &&& 0 < self.tt_root_config.cell_resolution.columns <= i32::MAX
        &&& 0 < self.tt_root_config.cell_resolution.rows <= i32::MAX
        &&& match self.tt {
            Some(t) => {
                &&& self.styles_index@ == style_index_of(t.head.styling.styles@)
                &&& self.region_index@ == region_index_of(t.head.layout.regions@)
            },
            None => {
                &&& self.styles_index@ == Map::<Seq<char>, usize>::empty()
                &&& self.region_index@ == Map::<Seq<char>, usize>::empty()
            },
        }
    }

    /// The pixels per cell along `axis`.
    pub open spec fn cell_size(&self, axis: Axis) -> int {
        match axis {
            Axis::X => trunc_div(
                self.element_size.width as int,
                self.tt_root_config.cell_resolution.columns as int,
            ),
            Axis::Y => trunc_div(
                self.element_size.height as int,
                self.tt_root_config.cell_resolution.rows as int,
            ),
        }
    }

    /// The pixels that a cell measure spans along `axis`.
    pub open spec fn cells_px(&self, value: Seq<char>, axis: Axis) -> int {
        cell_count(value) * self.cell_size(axis)
    }

    /// A controller with no document, the default grid and an empty viewport.
    pub fn new() -> (r: Subtitles)
        ensures
            r.wf(),
            r.tt is None,
            r.cuepoints@ == Seq::<CuepointView>::empty(),
            r.cuepoint_to_subtitles_action@ == Map::<Seq<char>, SubtilesAction>::empty(),
            r.tt_root_config.cell_resolution == (CellResolution {
                columns: DEFAULT_COLUMNS,
                rows: DEFAULT_ROWS,
            }),
            r.element_size == (ElementSize { width: 0, height: 0 }),
    {
        Subtitles {
            tt: None,
            cuepoints: Cuepoints::new(),
            cuepoint_to_subtitles_action: StringHashMap::new(),
            styles_index: StringHashMap::new(),
            region_index: StringHashMap::new(),
            tt_root_config: TTRootConfig {
                cell_resolution: CellResolution { columns: DEFAULT_COLUMNS, rows: DEFAULT_ROWS },
            },
            element_size: ElementSize { width: 0, height: 0 },
        }
    }

    /// Records the viewport size; nothing already shown is redrawn.
    pub fn set_element_size(&mut self, width: i32, height: i32)
        ensures
            final(self).element_size == (ElementSize { width, height }),
            final(self).tt == old(self).tt,
            final(self).cuepoints == old(self).cuepoints,
            final(self).cuepoint_to_subtitles_action == old(self).cuepoint_to_subtitles_action,
            final(self).styles_index == old(self).styles_index,
            final(self).region_index == old(self).region_index,
            final(self).tt_root_config == old(self).tt_root_config,
    {
        self.element_size.width = width;
        self.element_size.height = height;
    }

    /// Converts a cell measure such as `"2c"` to pixels along `axis`:
    /// the count times the viewport size over the grid size, each division
    /// rounded toward zero. A measure that is not a number counts as zero.
    pub fn cells_to_pixels(&self, value: &str, axis: Axis) -> (r: i64)
        requires
            self.wf(),
        ensures
            r == self.cells_px(value@, axis),
            -0x4000_0000_0000_0000 <= r <= 0x4000_0000_0000_0000,
    {
        let cells: i64 = match axis {
            Axis::X => self.tt_root_config.cell_resolution.columns as i64,
            Axis::Y => self.tt_root_config.cell_resolution.rows as i64,
        };
        let dim: i64 = match axis {
            Axis::X => self.element_size.width as i64,
            Axis::Y => self.element_size.height as i64,
        };
        let size: i64 = if dim >= 0 {
            dim / cells
        } else {
            -((-dim) / cells)
        };
        proof {
            let d = dim as int;
            let c = cells as int;
            if d >= 0 {
                assert(0 <= d / c <= d) by (nonlinear_arith)
                    requires
                        d >= 0,
                        c >= 1,
                ;
            } else {
                assert(0 <= (-d) / c <= -d) by (nonlinear_arith)
                    requires
                        d < 0,
                        c >= 1,
                ;
            }
        }
        let chars = chars_of(value);
        if chars.len() == 0 {
            return 0;
        }
        let mut digits: Vec<char> = Vec::new();
        let mut i: usize = 0;
        while i + 1 < chars.len()
            invariant
                i + 1 <= chars.len(),
                digits@ == chars@.subrange(0, i as int),
            decreases chars.len() - i,
        {
            digits.push(chars[i]);
            i = i + 1;
        }
        assert(digits@ =~= value@.drop_last());
        match parse_signed(&digits) {
            Some(n) => {
                assert(-0x4000_0000_0000_0000 <= n * size <= 0x4000_0000_0000_0000) by (nonlinear_arith)
                    requires
                        -0x8000_0000 <= n <= 0x8000_0000,
                        -0x8000_0000 <= size <= 0x7fff_ffff,
                ;
                n * size
            },
            None => 0,
        }
    }

    /// The document-wide defaults: the body's style, then the division's
    /// style over it, then a font size of one cell height in pixels.
    pub open spec fn default_props(&self) -> Map<Seq<char>, Seq<char>> {
        let m = match self.tt {
            Some(t) => {
                let m = match t.body.style {
                    Some(id) => style_ref(self.tt, id@),
                    None => Map::empty(),
                };
                match t.body.div.style {
                    Some(id) => m.union_prefer_right(style_ref(self.tt, id@)),
                    None => m,
                }
            },
            None => Map::empty(),
        };
        m.insert("font-size"@, int_text(self.cells_px("1c"@, Axis::Y)) + "px"@)
    }

    /// The region properties of a paragraph; none when it names no region.
    pub open spec fn paragraph_region(&self, p: P) -> Map<Seq<char>, Seq<char>> {
        match p.region {
            Some(r) => region_ref(self.tt, r@),
            None => Map::empty(),
        }
    }

    /// What showing paragraph `p` hands to the surface.
    pub open spec fn caption_of(&self, p: P) -> CaptionView {
        CaptionView {
            default_style: self.default_props(),
            region_style: self.paragraph_region(p),
            rows: paragraph_rows(self.tt, p),
        }
    }

    /// The properties of the style that `style_id` names; none when it
    /// names nothing.
    pub fn resolve_style(&self, style_id: &str) -> (r: ResolvedStyle)
        requires
            self.wf(),
        ensures
            r.wf(),
            r@ == style_ref(self.tt, style_id@),
    {
        match &self.tt {
            Some(tt) => match self.styles_index.get(style_id) {
                Some(idx) => {
                    proof {
                        lemma_style_index_bounds(tt.head.styling.styles@);
                    }
                    style_properties(&tt.head.styling.styles[*idx])
                },
                None => ResolvedStyle::new(),
            },
            None => ResolvedStyle::new(),
        }
    }

    /// The properties of the region that `region_id` names: its geometry,
    /// then its style's properties over it.
    pub fn resolve_region_styles(&self, region_id: &str) -> (r: ResolvedStyle)
        requires
            self.wf(),
        ensures
            r.wf(),
            r@ == region_ref(self.tt, region_id@),
    {
        match &self.tt {
            Some(tt) => match self.region_index.get(region_id) {
                Some(idx) => {
                    proof {
                        lemma_region_index_bounds(tt.head.layout.regions@);
                    }
                    let region = &tt.head.layout.regions[*idx];
                    let mut r = ResolvedStyle::new();
                    set_pair(&mut r, "left", "top", &region.origin);
                    set_pair(&mut r, "width", "height", &region.extent);
                    match &region.style {
                        Some(id) => {
                            let st = self.resolve_style(id.as_str());
                            r.merge(&st);
                        },
                        None => {},
                    }
                    r
                },
                None => ResolvedStyle::new(),
            },
            None => ResolvedStyle::new(),
        }
    }

    /// The document-wide defaults; see `default_props`.
    pub fn resolve_default_styles(&self) -> (r: ResolvedStyle)
        requires
            self.wf(),
        ensures
            r.wf(),
            r@ == self.default_props(),
    {
        let mut r = ResolvedStyle::new();
        match &self.tt {
            Some(tt) => {
                match &tt.body.style {
                    Some(id) => {
                        let st = self.resolve_style(id.as_str());
                        r.merge(&st);
                    },
                    None => {},
                }
                match &tt.body.div.style {
                    Some(id) => {
                        let st = self.resolve_style(id.as_str());
                        r.merge(&st);
                    },
                    None => {},
                }
            },
            None => {},
        }
        assert(r@ =~= match self.tt {
            Some(t) => {
                let m = match t.body.style {
                    Some(id) => style_ref(self.tt, id@),
                    None => Map::empty(),
                };
                match t.body.div.style {
                    Some(id) => m.union_prefer_right(style_ref(self.tt, id@)),
                    None => m,
                }
            },
            None => Map::empty(),
        });
        let px = self.cells_to_pixels("1c", Axis::Y);
        let mut size = String::new();
        push_int(&mut size, px);
        size.append("px");
        r.set("font-size".to_owned(), size);
        r
    }

    /// The rows of paragraph `p`: one per span, in the span's style, and one
    /// per line break, in document order.
    pub fn resolve_span_text(&self, p: &P) -> (r: Vec<Row>)
        requires
            self.wf(),
        ensures
            forall|i: int| 0 <= i < r@.len() ==> (#[trigger] r@[i]).wf(),
            r@.map_values(|x: Row| x@) == paragraph_rows(self.tt, *p),
    {
        let mut rows: Vec<Row> = Vec::new();
        match &p.children {
            Some(cs) => {
                let mut i: usize = 0;
                while i < cs.len()
                    invariant
                        self.wf(),
                        i <= cs.len(),
                        forall|j: int| 0 <= j < rows@.len() ==> (#[trigger] rows@[j]).wf(),
                        rows@.map_values(|x: Row| x@) == rows_of(self.tt, cs@.subrange(0, i as int)),
                    decreases cs.len() - i,
                {
                    assert(cs@.subrange(0, i + 1).drop_last() =~= cs@.subrange(0, i as int));
                    let row = match &cs[i] {
                        Choice::Span(span) => {
                            let text = match &span.text {
                                Some(t) => t.clone(),
                                None => String::new(),
                            };
                            Row::Span { style: self.resolve_style(span.style.as_str()), text }
                        },
                        Choice::Br(_) => Row::LineBreak,
                    };
                    rows.push(row);
                    assert(rows@.map_values(|x: Row| x@) =~= rows_of(
                        self.tt,
                        cs@.subrange(0, i + 1),
                    ));
                    i = i + 1;
                }
                assert(cs@.subrange(0, cs.len() as int) =~= cs@);
            },
            None => {
                assert(rows@.map_values(|x: Row| x@) =~= Seq::<RowView>::empty());
            },
        }
        rows
    }

    /// The caption shown for paragraph `p`; see `caption_of`.
    pub fn show_subtile(&self, p: &P) -> (r: Caption)
        requires
            self.wf(),
        ensures
            r.wf(),
            r@ == self.caption_of(*p),
    {
        let region_style = match &p.region {
            Some(id) => self.resolve_region_styles(id.as_str()),
            None => ResolvedStyle::new(),
        };
        Caption {
            default_style: self.resolve_default_styles(),
            region_style,
            rows: self.resolve_span_text(p),
        }
    }

    /// The full cascade for a span of paragraph `p` styled `span_style`:
    /// the defaults, then the paragraph's region, then the span's style, each
    /// later source overriding the earlier ones property by property.
    pub fn resolve_span_style(&self, p: &P, span_style: &str) -> (r: ResolvedStyle)
        requires
            self.wf(),
        ensures
            r.wf(),
            r@ == self.default_props().union_prefer_right(self.paragraph_region(*p)).union_prefer_right(
                style_ref(self.tt, span_style@),
            ),
    {
        let mut r = self.resolve_default_styles();
        match &p.region {
            Some(id) => {
                let region = self.resolve_region_styles(id.as_str());
                r.merge(&region);
            },
            None => {
                assert(r@ =~= r@.union_prefer_right(Map::<Seq<char>, Seq<char>>::empty()));
            },
        }
        let st = self.resolve_style(span_style);
        r.merge(&st);
        r
    }

    /// Loads a document: the style and region indices, and for every
    /// paragraph in order an enter and an exit cue with their actions; the
    /// cell grid is the one the document declares. Whatever was loaded
    /// before is dropped; the viewport stays.
    pub fn load(&mut self, tt: TT)
        requires
            old(self).wf(),
        ensures
            final(self).wf(),
            final(self).tt == Some(tt),
            final(self).cuepoints@ == loaded(tt.body.div.p@).0,
            final(self).cuepoint_to_subtitles_action@ == loaded(tt.body.div.p@).1,
            final(self).tt_root_config.cell_resolution == declared_grid(tt.ttp_cell_resolution@),
            final(self).element_size == old(self).element_size,
    {
        let (cues, table) = add_cuepoints(&tt.body.div.p);
        self.cuepoints = cues;
        self.cuepoint_to_subtitles_action = table;
        self.styles_index = get_styles(&tt.head.styling.styles);
        self.region_index = get_regions(&tt.head.layout.regions);
        self.tt_root_config = TTRootConfig {
            cell_resolution: parse_grid(tt.ttp_cell_resolution.as_str()),
        };
        self.tt = Some(tt);
    }

    /// The action that the cue `cue_id` maps to, when the table has it and
    /// it names a paragraph of the document.
    pub open spec fn action_for(&self, cue_id: Seq<char>) -> Option<ActionView> {
        if self.cuepoint_to_subtitles_action@.contains_key(cue_id) {
            let a = self.cuepoint_to_subtitles_action@[cue_id];
            match self.tt {
                Some(t) => if a.index < t.body.div.p.len() {
                    let p = t.body.div.p@[a.index as int];
                    if a.is_show_action {
                        Some(ActionView::Show { id: p.id@, caption: self.caption_of(p) })
                    } else {
                        Some(ActionView::Hide { id: p.id@ })
                    }
                } else {
                    None
                },
                None => None,
            }
        } else {
            None
        }
    }

    /// The actions of the fired cues, in firing order.
    pub open spec fn actions_for(&self, fired: Seq<CuepointView>) -> Seq<ActionView>
        decreases fired.len(),
    {
        if fired.len() == 0 {
            Seq::empty()
        } else {
            let rest = self.actions_for(fired.drop_last());
            match self.action_for(fired.last().id) {
                Some(a) => rest.push(a),
                None => rest,
            }
        }
    }

    /// One playback tick at `ms`: evaluates the registry and returns, in
    /// firing order, the show or hide decision of each fired cue; a show
    /// carries the caption resolved now. Only the registry changes.
    pub fn update_subtitles_for_ms(&mut self, ms: i32) -> (r: Vec<SubtitleAction>)
        requires
            old(self).wf(),
        ensures
            final(self).wf(),
            final(self).cuepoints@ == evaluated(old(self).cuepoints@, ms as int),
            final(self).tt == old(self).tt,
            final(self).cuepoint_to_subtitles_action == old(self).cuepoint_to_subtitles_action,
            final(self).styles_index == old(self).styles_index,
            final(self).region_index == old(self).region_index,
            final(self).tt_root_config == old(self).tt_root_config,
            final(self).element_size == old(self).element_size,
            forall|i: int| 0 <= i < r@.len() ==> (#[trigger] r@[i]).wf(),
            r@.map_values(|a: SubtitleAction| a@) == old(self).actions_for(
                fired_cues(old(self).cuepoints@, ms as int),
            ),
    {
        let fired = self.cuepoints.check_cuepoints(ms);
        proof {
            lemma_evaluated_in_place(old(self).cuepoints@, ms as int);
            assert forall|i: int| 0 <= i < self.cuepoints@.len() implies !(
            #[trigger] self.cuepoints@[i]).once && self.cuepoints@[i].timestopass <= 0 by {
                assert(self.cuepoints@[i] == decayed(old(self).cuepoints@[i]));
            }
        }
        let ghost fv = fired_cues(old(self).cuepoints@, ms as int);
        let mut actions: Vec<SubtitleAction> = Vec::new();
        let mut i: usize = 0;
        while i < fired.len()
            invariant
                self.wf(),
                i <= fired.len(),
                fired@.map_values(|c: Cuepoint| c@) == fv,
                self.tt == old(self).tt,
                self.cuepoint_to_subtitles_action == old(self).cuepoint_to_subtitles_action,
                self.styles_index == old(self).styles_index,
                self.region_index == old(self).region_index,
                self.tt_root_config == old(self).tt_root_config,
                self.element_size == old(self).element_size,
                forall|j: int| 0 <= j < actions@.len() ==> (#[trigger] actions@[j]).wf(),
                actions@.map_values(|a: SubtitleAction| a@) == self.actions_for(
                    fv.subrange(0, i as int),
                ),
            decreases fired.len() - i,
        {
            assert(fv.subrange(0, i + 1).drop_last() =~= fv.subrange(0, i as int));
            assert(fv[i as int] == fired@[i as int]@);
            match self.cuepoint_to_subtitles_action.get(fired[i].id.as_str()) {
                Some(action) => match &self.tt {
                    Some(tt) => {
                        if action.index < tt.body.div.p.len() {
                            let p = &tt.body.div.p[action.index];
                            let id = p.id.clone();
                            if action.is_show_action {
                                let caption = self.show_subtile(p);
                                actions.push(SubtitleAction::Show { id, caption });
                            } else {
                                actions.push(SubtitleAction::Hide { id });
                            }
                        }
                    },
                    None => {},
                },
                None => {},
            }
            assert(actions@.map_values(|a: SubtitleAction| a@) =~= self.actions_for(
                fv.subrange(0, i + 1),
            ));
            i = i + 1;
        }
        assert(fv.subrange(0, fired.len() as int) =~= fv);
        assert(self.actions_for(fv) == old(self).actions_for(fv)) by {
            self.lemma_actions_same(*old(self), fv, fv);
        }
        actions
    }

    /// Two controllers with the same document, table and viewport decide the
    /// same actions for fired cues with the same ids.
    pub proof fn lemma_actions_same(
        &self,
        other: Subtitles,
        f: Seq<CuepointView>,
        g: Seq<CuepointView>,
    )
        requires
            self.tt == other.tt,
            self.cuepoint_to_subtitles_action@ == other.cuepoint_to_subtitles_action@,
            self.tt_root_config == other.tt_root_config,
            self.element_size == other.element_size,
            f.len() == g.len(),
            forall|i: int| 0 <= i < f.len() ==> (#[trigger] f[i]).id == g[i].id,
        ensures
            self.actions_for(f) == other.actions_for(g),
        decreases f.len(),
    {
        if f.len() > 0 {
            assert forall|i: int| 0 <= i < f.drop_last().len() implies (
            #[trigger] f.drop_last()[i]).id == g.drop_last()[i].id by {
                assert(f.drop_last()[i] == f[i]);
                assert(g.drop_last()[i] == g[i]);
            }
            self.lemma_actions_same(other, f.drop_last(), g.drop_last());
            assert(f[f.len() - 1].id == g[g.len() - 1].id);
        }
    }

    /// One playback tick at `ms` against `surface`: decides as
    /// `update_subtitles_for_ms` does, then carries the decisions out in
    /// order (see `carry_out`): a show asks the surface whether it has the
    /// caption and shows it only if not; a hide is made unguarded.
    pub fn advance_to<S: RenderSurface>(&mut self, ms: i32, surface: &mut S)
        requires
            old(self).wf(),
        ensures
            final(self).wf(),
            final(self).cuepoints@ == evaluated(old(self).cuepoints@, ms as int),
            final(self).tt == old(self).tt,
            final(self).cuepoint_to_subtitles_action == old(self).cuepoint_to_subtitles_action,
            final(self).tt_root_config == old(self).tt_root_config,
            final(self).element_size == old(self).element_size,
            final(surface).calls() == old(surface).calls() + carry_out(
                old(self).actions_for(fired_cues(old(self).cuepoints@, ms as int)),
                shown_set(*old(surface)),
            ).0,
            shown_set(*final(surface)) == carry_out(
                old(self).actions_for(fired_cues(old(self).cuepoints@, ms as int)),
                shown_set(*old(surface)),
            ).1,
    {
        let actions = self.update_subtitles_for_ms(ms);
        let ghost decided = actions@.map_values(|a: SubtitleAction| a@);
        let ghost start = surface.calls();
        let ghost initial = shown_set(*surface);
        let mut i: usize = 0;
        while i < actions.len()
            invariant
                i <= actions.len(),
                decided == actions@.map_values(|a: SubtitleAction| a@),
                forall|j: int| 0 <= j < actions@.len() ==> (#[trigger] actions@[j]).wf(),
                surface.calls() == start + carry_out(decided.subrange(0, i as int), initial).0,
                shown_set(*surface) == carry_out(decided.subrange(0, i as int), initial).1,
            decreases actions.len() - i,
        {
            let ghost prev = carry_out(decided.subrange(0, i as int), initial);
            let ghost calls_before = surface.calls();
            let ghost set_before = shown_set(*surface);
            assert(decided.subrange(0, i + 1).drop_last() =~= decided.subrange(0, i as int));
            assert(decided[i as int] == actions@[i as int]@);
            assert(actions@[i as int].wf());
            match &actions[i] {
                SubtitleAction::Show { id, caption } => {
                    let there = surface.render_exists(id);
                    assert(there == set_before.contains(id@));
                    if !there {
                        surface.render_show(id, caption);
                        assert(shown_set(*surface) =~= set_before.insert(id@));
                    }
                },
                SubtitleAction::Hide { id } => {
                    surface.render_hide(id);
                    assert(shown_set(*surface) =~= set_before.remove(id@));
                },
            }
            assert(surface.calls() =~= start + carry_out(decided.subrange(0, i + 1), initial).0);
            i = i + 1;
        }
        assert(decided.subrange(0, actions.len() as int) =~= decided);
    }
}

/// Reporting the same position twice in a row decides the same actions the
/// second time as the first: every caption shown then is asked to be shown
/// again (which the surface skips when it has it), and every caption whose
/// exit cue still holds the position is hidden again.
pub proof fn lemma_repeat_tick(first: Subtitles, second: Subtitles, ms: int)
    requires
        first.wf(),
        second.cuepoints@ == evaluated(first.cuepoints@, ms),
        second.tt == first.tt,
        second.cuepoint_to_subtitles_action == first.cuepoint_to_subtitles_action,
        second.tt_root_config == first.tt_root_config,
        second.element_size == first.element_size,
    ensures
        second.actions_for(fired_cues(second.cuepoints@, ms)) == first.actions_for(
            fired_cues(first.cuepoints@, ms),
        ),
{
    let s = first.cuepoints@;
    lemma_evaluated_in_place(s, ms);
    assert(evaluated(s, ms) =~= decay_all(s));
    lemma_fired_after_decay(s, ms);
    second.lemma_actions_same(first, fired_cues(second.cuepoints@, ms), fired_cues(s, ms));
}

/// Reporting the same position twice in a row, against a surface that has
/// each caption to show at the point its show comes the second time, makes
/// no show on the second tick and hides again exactly what the first tick
/// decided to hide, one unguarded hide each.
pub proof fn lemma_repeat_tick_calls(
    first: Subtitles,
    second: Subtitles,
    ms: int,
    shown: Set<Seq<char>>,
)
    requires
        first.wf(),
        second.cuepoints@ == evaluated(first.cuepoints@, ms),
        second.tt == first.tt,
        second.cuepoint_to_subtitles_action == first.cuepoint_to_subtitles_action,
        second.tt_root_config == first.tt_root_config,
        second.element_size == first.element_size,
        forall|i: int|
            0 <= i < second.actions_for(fired_cues(second.cuepoints@, ms)).len() ==> ((
            #[trigger] second.actions_for(fired_cues(second.cuepoints@, ms))[i]) matches ActionView::Show {
                id,
                ..
            } ==> carry_out(
                second.actions_for(fired_cues(second.cuepoints@, ms)).subrange(0, i),
                shown,
            ).1.contains(id)),
    ensures
        carry_out(second.actions_for(fired_cues(second.cuepoints@, ms)), shown).0 == hides_of(
            first.actions_for(fired_cues(first.cuepoints@, ms)),
        ),
{
    lemma_repeat_tick(first, second, ms);
    lemma_present_captions_not_shown(second.actions_for(fired_cues(second.cuepoints@, ms)), shown);
}

} // verus!
