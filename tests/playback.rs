use subtitles::document::{
    Body, Br, Choice, Div, DocumentMetadata, Head, Layout, Metadata, Region, Span, Style, Styling,
    P, TT,
};
use subtitles::cascade::Row;
use subtitles::subtitles::{
    Axis, MemorySurface, RenderCall, RenderSurface, SubtitleAction, Subtitles,
};

fn text(s: &str) -> String {
    s.to_string()
}

fn style(id: &str) -> Style {
    Style {
        id: text(id),
        font_family: None,
        font_size: None,
        font_style: None,
        font_weight: None,
        text_decoration: None,
        color: None,
        text_align: None,
        background_color: None,
    }
}

fn region(id: &str) -> Region {
    Region {
        id: text(id),
        origin: None,
        extent: None,
        padding: None,
        display_align: None,
        writing_mode: None,
        show_background: None,
        overflow: None,
        style: None,
    }
}

fn paragraph(id: &str, begin: &str, end: &str, children: Vec<Choice>) -> P {
    P {
        id: text(id),
        region: None,
        begin: text(begin),
        end: text(end),
        children: Some(children),
    }
}

fn span(style: &str, t: &str) -> Choice {
    Choice::Span(Span { style: text(style), text: Some(text(t)) })
}

fn document(styles: Vec<Style>, regions: Vec<Region>, ps: Vec<P>) -> TT {
    TT {
        xmlns_tt: text("http://www.w3.org/ns/ttml"),
        xmlns_ttp: text("http://www.w3.org/ns/ttml#parameter"),
        xmlns_tts: text("http://www.w3.org/ns/ttml#styling"),
        xmlns_ebuttm: text("urn:ebu:tt:metadata"),
        xmlns_ebutts: text("urn:ebu:tt:style"),
        ttp_time_base: text("media"),
        xml_lang: text("ca"),
        ttp_cell_resolution: text("40 24"),
        head: Head {
            metadata: Metadata {
                ppd: text(""),
                document_metadata: DocumentMetadata {
                    conforms_to_standard: text(""),
                    document_country_of_origin: text(""),
                },
            },
            styling: Styling { styles },
            layout: Layout { regions },
        },
        body: Body { style: None, div: Div { style: None, p: ps } },
    }
}

fn prop(s: &subtitles::style::ResolvedStyle, name: &str) -> Option<String> {
    s.get(name).cloned()
}

fn recorded(surface: &MemorySurface) -> Vec<String> {
    surface
        .log
        .iter()
        .map(|c| match c {
            RenderCall::Show(id, _) => format!("show {}", id),
            RenderCall::Hide(id) => format!("hide {}", id),
        })
        .collect()
}

fn one_caption() -> Subtitles {
    let mut subs = Subtitles::new();
    subs.load(document(
        vec![],
        vec![],
        vec![paragraph("p1", "00:00:05.000", "00:00:07.000", vec![span("s", "Hola")])],
    ));
    subs
}

#[test]
fn end_to_end_show_and_hide() {
    let mut subs = one_caption();
    let mut host = MemorySurface::new();
    subs.advance_to(4999, &mut host);
    assert!(recorded(&host).is_empty());
    subs.advance_to(5000, &mut host);
    assert_eq!(recorded(&host), vec!["show p1"]);
    subs.advance_to(7000, &mut host);
    assert_eq!(recorded(&host), vec!["show p1", "hide p1"]);
    subs.advance_to(8000, &mut host);
    assert_eq!(recorded(&host), vec!["show p1", "hide p1"]);
}

#[test]
fn repeated_tick_does_not_show_twice() {
    let mut subs = one_caption();
    let mut host = MemorySurface::new();
    subs.advance_to(5100, &mut host);
    subs.advance_to(5100, &mut host);
    assert_eq!(recorded(&host), vec!["show p1"]);
}

#[test]
fn repeated_tick_hides_again() {
    let mut subs = one_caption();
    let mut host = MemorySurface::new();
    subs.advance_to(7100, &mut host);
    subs.advance_to(7100, &mut host);
    assert_eq!(recorded(&host), vec!["hide p1", "hide p1"]);
}

#[test]
fn repeated_tick_same_decisions() {
    let mut subs = one_caption();
    let first = subs.update_subtitles_for_ms(5200);
    let second = subs.update_subtitles_for_ms(5200);
    assert_eq!(first.len(), 1);
    assert_eq!(second.len(), 1);
    match (&first[0], &second[0]) {
        (SubtitleAction::Show { id: a, .. }, SubtitleAction::Show { id: b, .. }) => {
            assert_eq!(a, "p1");
            assert_eq!(b, "p1");
        }
        _ => panic!("expected two shows"),
    }
}

#[test]
fn unreadable_timecode_never_fires() {
    let mut subs = Subtitles::new();
    subs.load(document(
        vec![],
        vec![],
        vec![paragraph("p1", "garbage", "00:00:02.000", vec![])],
    ));
    let mut host = MemorySurface::new();
    for ms in [0, 1, 500, 1000] {
        subs.advance_to(ms, &mut host);
    }
    assert!(recorded(&host).is_empty());
    subs.advance_to(2000, &mut host);
    assert_eq!(recorded(&host), vec!["hide p1"]);
}

#[test]
fn load_makes_two_cues_per_paragraph() {
    let mut subs = Subtitles::new();
    subs.load(document(
        vec![],
        vec![],
        vec![
            paragraph("a", "00:00:01", "00:00:02", vec![]),
            paragraph("b", "00:00:03", "00:00:04", vec![]),
            paragraph("a", "00:00:05", "00:00:06", vec![]),
        ],
    ));
    assert_eq!(subs.cuepoints.len(), 4);
    assert!(subs.cuepoints.contains_id("in-a"));
    assert!(subs.cuepoints.contains_id("out-b"));
    let action = subs.cuepoint_to_subtitles_action.get("in-a").unwrap();
    assert_eq!(action.index, 0);
    assert!(action.is_show_action);
    let action = subs.cuepoint_to_subtitles_action.get("out-b").unwrap();
    assert_eq!(action.index, 1);
    assert!(!action.is_show_action);
}

#[test]
fn cascade_span_wins_over_region() {
    let mut s = style("S");
    s.color = Some(text("red"));
    let mut s2 = style("S2");
    s2.color = Some(text("blue"));
    let mut r = region("R");
    r.style = Some(text("S"));
    let mut p = paragraph("p1", "00:00:01.000", "00:00:02.000", vec![span("S2", "hi")]);
    p.region = Some(text("R"));
    let mut subs = Subtitles::new();
    subs.load(document(vec![s, s2], vec![r], vec![p]));
    let p = &subs.tt.as_ref().unwrap().body.div.p[0];
    assert_eq!(prop(&subs.resolve_region_styles("R"), "color"), Some(text("red")));
    let full = subs.resolve_span_style(p, "S2");
    assert_eq!(prop(&full, "color"), Some(text("blue")));
    let rows = subs.resolve_span_text(p);
    match &rows[0] {
        Row::Span { style, text: t } => {
            assert_eq!(prop(style, "color"), Some(text("blue")));
            assert_eq!(t, "hi");
        }
        Row::LineBreak => panic!("expected a span"),
    }
}

#[test]
fn style_omits_absent_attributes() {
    let mut s = style("S");
    s.font_family = Some(text("Arial"));
    s.background_color = Some(text("#000000c2"));
    s.color = Some(text("#ffffff"));
    s.text_decoration = Some(text("underline"));
    let mut subs = Subtitles::new();
    subs.load(document(vec![s], vec![], vec![]));
    let r = subs.resolve_style("S");
    assert_eq!(prop(&r, "font-family"), Some(text("Arial")));
    assert_eq!(prop(&r, "background-color"), Some(text("rgba(0,0,0,0.761)")));
    assert_eq!(prop(&r, "color"), Some(text("rgb(255,255,255)")));
    assert_eq!(prop(&r, "font-size"), None);
    assert_eq!(prop(&r, "text-decoration"), None);
    assert_eq!(r.entries().len(), 3);
    assert!(subs.resolve_style("missing").entries().is_empty());
}

#[test]
fn region_geometry() {
    let mut r = region("R");
    r.origin = Some(text("10% 80%"));
    r.extent = Some(text("80%"));
    let mut subs = Subtitles::new();
    subs.load(document(vec![], vec![r], vec![]));
    let st = subs.resolve_region_styles("R");
    assert_eq!(prop(&st, "left"), Some(text("10%")));
    assert_eq!(prop(&st, "top"), Some(text("80%")));
    assert_eq!(prop(&st, "width"), None);
    assert_eq!(prop(&st, "height"), None);
    assert!(subs.resolve_region_styles("other").entries().is_empty());
}

#[test]
fn cells_to_pixels_uses_viewport() {
    let mut subs = Subtitles::new();
    subs.set_element_size(800, 480);
    assert_eq!(subs.cells_to_pixels("1c", Axis::Y), 20);
    assert_eq!(subs.cells_to_pixels("2c", Axis::X), 40);
    assert_eq!(subs.cells_to_pixels("-1c", Axis::Y), -20);
    assert_eq!(subs.cells_to_pixels("abc", Axis::X), 0);
    assert_eq!(subs.cells_to_pixels("", Axis::X), 0);
    subs.set_element_size(810, 490);
    assert_eq!(subs.cells_to_pixels("3c", Axis::Y), 60);
    assert_eq!(subs.cells_to_pixels("3c", Axis::X), 60);
}

#[test]
fn declared_grid_is_used() {
    let mut doc = document(vec![], vec![], vec![]);
    doc.ttp_cell_resolution = text("50 30");
    let mut subs = Subtitles::new();
    subs.set_element_size(1000, 600);
    subs.load(doc);
    assert_eq!(subs.cells_to_pixels("1c", Axis::X), 20);
    assert_eq!(subs.cells_to_pixels("1c", Axis::Y), 20);
    let mut doc = document(vec![], vec![], vec![]);
    doc.ttp_cell_resolution = text("0 30");
    subs.load(doc);
    assert_eq!(subs.cells_to_pixels("1c", Axis::X), 25);
}

#[test]
fn default_styles_font_size_follows_viewport() {
    let mut body_style = style("B");
    body_style.font_size = Some(text("1c"));
    body_style.text_align = Some(text("center"));
    let mut doc = document(vec![body_style], vec![], vec![]);
    doc.body.style = Some(text("B"));
    let mut subs = Subtitles::new();
    subs.load(doc);
    subs.set_element_size(640, 480);
    let d = subs.resolve_default_styles();
    assert_eq!(prop(&d, "font-size"), Some(text("20px")));
    assert_eq!(prop(&d, "text-align"), Some(text("center")));
    subs.set_element_size(640, 240);
    assert_eq!(prop(&subs.resolve_default_styles(), "font-size"), Some(text("10px")));
}

#[test]
fn show_carries_resolved_caption() {
    let mut p = paragraph(
        "p1",
        "00:00:01.000",
        "00:00:02.000",
        vec![span("S", "one"), Choice::Br(Br {}), Choice::Span(Span { style: text("S"), text: None })],
    );
    p.region = Some(text("R"));
    let mut r = region("R");
    r.origin = Some(text("1c 2c"));
    let mut s = style("S");
    s.font_weight = Some(text("bold"));
    let mut subs = Subtitles::new();
    subs.load(document(vec![s], vec![r], vec![p]));
    let actions = subs.update_subtitles_for_ms(1000);
    assert_eq!(actions.len(), 1);
    match &actions[0] {
        SubtitleAction::Show { id, caption } => {
            assert_eq!(id, "p1");
            assert_eq!(prop(&caption.region_style, "left"), Some(text("1c")));
            assert_eq!(caption.rows.len(), 3);
            assert!(matches!(caption.rows[1], Row::LineBreak));
            match &caption.rows[2] {
                Row::Span { style, text: t } => {
                    assert_eq!(prop(style, "font-weight"), Some(text("bold")));
                    assert_eq!(t, "");
                }
                Row::LineBreak => panic!("expected a span"),
            }
        }
        SubtitleAction::Hide { .. } => panic!("expected a show"),
    }
}

#[test]
fn no_document_no_actions() {
    let mut subs = Subtitles::new();
    assert!(subs.update_subtitles_for_ms(0).is_empty());
    assert_eq!(prop(&subs.resolve_default_styles(), "font-size"), Some(text("0px")));
}

#[test]
fn memory_surface_records_guarded_shows_and_hides() {
    let mut subs = one_caption();
    let mut surface = MemorySurface::new();
    subs.advance_to(4999, &mut surface);
    assert!(recorded(&surface).is_empty());
    subs.advance_to(5000, &mut surface);
    subs.advance_to(5000, &mut surface);
    assert_eq!(recorded(&surface), vec!["show p1"]);
    assert!(surface.render_exists(&text("p1")));
    subs.advance_to(7000, &mut surface);
    subs.advance_to(7000, &mut surface);
    assert_eq!(recorded(&surface), vec!["show p1", "hide p1", "hide p1"]);
    assert!(!surface.render_exists(&text("p1")));
    subs.advance_to(8000, &mut surface);
    assert_eq!(recorded(&surface).len(), 3);
}

#[test]
fn show_skipped_when_surface_has_caption() {
    let mut subs = one_caption();
    let mut surface = MemorySurface::new();
    surface.render_hide(&text("other"));
    subs.advance_to(5000, &mut surface);
    let log = surface.take_log();
    assert_eq!(log.len(), 2);
    match &log[1] {
        RenderCall::Show(id, caption) => {
            assert_eq!(id, "p1");
            assert_eq!(caption.rows.len(), 1);
        }
        RenderCall::Hide(_) => panic!("expected a show"),
    }
    subs.advance_to(5001, &mut surface);
    assert!(surface.take_log().is_empty());
    assert!(surface.render_exists(&text("p1")));
}
