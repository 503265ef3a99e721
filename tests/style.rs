use subtitles::style::ResolvedStyle;
use subtitles::text::split_pair;

fn text(s: &str) -> String {
    s.to_string()
}

#[test]
fn set_replaces_value() {
    let mut st = ResolvedStyle::new();
    st.set(text("color"), text("red"));
    st.set(text("font-size"), text("12px"));
    st.set(text("color"), text("blue"));
    assert_eq!(st.get("color"), Some(&text("blue")));
    assert_eq!(st.entries().len(), 2);
    assert_eq!(st.get("margin"), None);
}

#[test]
fn merge_overrides_property_by_property() {
    let mut low = ResolvedStyle::new();
    low.set(text("color"), text("red"));
    low.set(text("text-align"), text("left"));
    let mut high = ResolvedStyle::new();
    high.set(text("color"), text("blue"));
    high.set(text("font-weight"), text("bold"));
    low.merge(&high);
    assert_eq!(low.get("color"), Some(&text("blue")));
    assert_eq!(low.get("text-align"), Some(&text("left")));
    assert_eq!(low.get("font-weight"), Some(&text("bold")));
    assert_eq!(low.entries().len(), 3);
}

#[test]
fn pair_needs_exactly_one_separator() {
    assert_eq!(split_pair("10% 20%", ' '), Some((text("10%"), text("20%"))));
    assert_eq!(split_pair(" x", ' '), Some((text(""), text("x"))));
    assert_eq!(split_pair("10%", ' '), None);
    assert_eq!(split_pair("1 2 3", ' '), None);
    assert_eq!(split_pair("a  b", ' '), None);
}
