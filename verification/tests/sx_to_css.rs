use textiler_core::error::Error;
use textiler_core::system_props::{
    media_query_text, system_properties, CssPropertyTranslator, SystemProperties, TranslationUnit,
};
use textiler_core::theme::breakpoint::Breakpoints;
use textiler_core::theme::color::Color;
use textiler_core::theme::palette::Palette;
use textiler_core::theme::sx::sx_to_css::{sx_to_css, Declaration, Rule};
use textiler_core::theme::sx::sx_value::{FnSxValue, SxValue};
use textiler_core::theme::sx::Sx;
use textiler_core::theme::theme_mode::ThemeMode;
use textiler_core::theme::Theme;
use textiler_core::utils::to_property;

fn text(s: &str) -> SxValue {
    SxValue::from_text(s).expect("could not create sxvalue")
}

fn style(entries: &[(&str, SxValue)]) -> Sx {
    let mut sx = Sx::new();
    for (key, value) in entries {
        sx.insert(key, value.clone());
    }
    sx
}

fn nested(entries: &[(&str, SxValue)]) -> SxValue {
    SxValue::Nested(style(entries))
}

fn theme() -> Theme {
    let mut theme = Theme::new();
    let mut common = Palette::new();
    common.insert_constant("black", Color::rgb(0, 0, 0));
    common.insert_by_mode("paper", Color::rgb(1, 1, 1), Color::rgb(254, 254, 254));
    theme.insert_palette("common", common);
    let mut background = Palette::new();
    background.insert_constant("body", Color::hex_code(0xffffff));
    theme.insert_palette("background", background);
    theme
}

fn compile(sx: &Sx, base: Option<&str>) -> Result<String, Error> {
    sx_to_css(sx, &ThemeMode::Dark, &theme(), base, &vec![])
}

#[test]
fn sx_to_css_test() {
    let sx = style(&[("--test-var", text("#0f0f0f"))]);
    let ref theme = theme();
    let ref mode = ThemeMode::Dark;

    let css = sx_to_css(&sx, mode, theme, Some(".happiness-8asd"), &vec![])
        .expect("could not create css");
    println!("css: {:?}", css);
    assert_eq!(css, ".happiness-8asd {--test-var: #0F0F0F;}");
}

#[test]
fn sx_to_nested_css_test() {
    let sx = style(&[(
        "div",
        nested(&[
            ("--color", text("common.black")),
            ("&[style=distributed]", nested(&[("font-family", text("monospace"))])),
        ]),
    )]);
    let ref theme = theme();
    let ref mode = ThemeMode::Dark;

    let css = sx_to_css(&sx, mode, theme, Some("#root"), &vec![]).expect("could not create css");
    println!("Css: {:#?}", css);
    assert_eq!(
        css,
        " #root div {--color: var(--happy-palette-common-black);} #root div[style=distributed] {font-family: monospace;}"
    );
}

#[test]
fn format_properties() {
    assert_eq!(to_property("backgroundColor"), "background-color");
    assert_eq!(to_property("background-Color"), "background-color");
    assert_eq!(to_property("--backgroundColor"), "--background-color");
    assert_eq!(to_property("--background-color"), "--background-color");
}

#[test]
fn to_css() {
    let sx = style(&[("padding", text("15px")), ("color", text("background.body"))]);
    let style = compile(&sx, None).unwrap();
    println!("style: {style:#?}");
    assert_eq!(style, "padding: 15px;color: var(--happy-palette-background-body);");
}

#[test]
fn breakpoints_create_media_queries() {
    let sx = style(&[("padding", text("15px")), ("md", nested(&[("padding", text("20px"))]))]);
    let style = compile(&sx, None).unwrap();
    println!("style: {style:#?}");
    assert_eq!(style, "padding: 15px; @media (min-width: 768px) {padding: 20px;}");
}

#[test]
fn sub_class() {
    let sx = style(&[(".box", nested(&[("p", text("10px"))]))]);
    let style = compile(&sx, None).unwrap();
    println!("style: {style:#?}");
    assert_eq!(style, " .box {padding: 10px;}");
}

#[test]
fn a_shorthand_for_two_properties_gives_two_declarations() {
    let sx = style(&[("pX", text("10px"))]);
    assert_eq!(compile(&sx, None).unwrap(), "margin-left: 10px;margin-right: 10px;");
    assert_eq!(
        compile(&sx, Some(".box")).unwrap(),
        ".box {margin-left: 10px;margin-right: 10px;}"
    );
}

#[test]
fn a_rule_without_declarations_of_its_own_has_no_block() {
    let sx = style(&[("md", nested(&[("padding", text("20px"))]))]);
    let css = compile(&sx, Some(".box")).unwrap();
    assert_eq!(css, " .box @media (min-width: 768px) {padding: 20px;}");
    assert!(!css.contains(".box {}"));
    assert!(!css.contains("{}"));
    assert_eq!(css.matches('{').count(), 1);
    assert!(css.contains("@media (min-width: 768px)"));
    assert!(css.contains("padding: 20px;"));
    assert_eq!(compile(&Sx::new(), Some(".box")).unwrap(), "");
    assert_eq!(compile(&Sx::new(), None).unwrap(), "");
}

#[test]
fn declarations_come_before_nested_rules() {
    let sx = style(&[
        ("a", nested(&[("x", SxValue::Integer(1))])),
        ("color", text("red")),
        ("b", nested(&[("y", SxValue::Integer(2)), ("c", nested(&[("z", SxValue::Integer(3))]))])),
        ("margin", SxValue::Integer(0)),
    ]);
    assert_eq!(
        compile(&sx, Some("#root")).unwrap(),
        "#root {color: red;margin: 0;} #root a {x: 1;} #root b {y: 2;} #root b c {z: 3;}"
    );
    assert_eq!(
        compile(&sx, None).unwrap(),
        " a {x: 1;}color: red; b {y: 2;} b c {z: 3;}margin: 0;"
    );
}

#[test]
fn fragments_are_combined_by_their_first_character() {
    let inner = nested(&[("x", SxValue::Integer(1))]);
    let sx = style(&[
        ("> li", inner.clone()),
        ("~ p", inner.clone()),
        ("+ p", inner.clone()),
        (", h1", inner.clone()),
        ("&:hover", inner.clone()),
        ("&[disabled]", inner.clone()),
        (".box", inner.clone()),
        ("[data-x]", inner.clone()),
        ("span", inner.clone()),
    ]);
    assert_eq!(
        compile(&sx, Some("ul")).unwrap(),
        " ul> li {x: 1;} ul~ p {x: 1;} ul+ p {x: 1;} ul, h1 {x: 1;} ul:hover {x: 1;} ul[disabled] {x: 1;} ul .box {x: 1;} ul [data-x] {x: 1;} ul span {x: 1;}"
    );
}

#[test]
fn a_shorthand_with_a_nested_rule_gives_one_rule_for_each_name() {
    let mut sx = Sx::new();
    sx.insert("marginX", nested(&[("x", SxValue::Integer(1))]));
    assert_eq!(
        compile(&sx, None).unwrap(),
        " margin-left {x: 1;} margin-right {x: 1;}"
    );
}

#[test]
fn a_missing_palette_is_an_error() {
    let sx = style(&[("color", text("red")), ("background", text("nothing.body"))]);
    assert_eq!(compile(&sx, None), Err(Error::UnknownPalette("nothing".to_string())));
    assert_eq!(compile(&sx, Some(".box")), Err(Error::UnknownPalette("nothing".to_string())));
    let sx = style(&[("a", nested(&[("b", nested(&[("color", text("nothing.body"))]))]))]);
    assert_eq!(compile(&sx, None), Err(Error::UnknownPalette("nothing".to_string())));
    let sx = style(&[("color", text("common.white"))]);
    assert_eq!(
        compile(&sx, None),
        Err(Error::UnknownSelector { palette: "common".to_string(), selector: "white".to_string() })
    );
    let sx = style(&[("color", text("common.paper"))]);
    assert_eq!(compile(&sx, None).unwrap(), "color: var(--happy-palette-common-paper);");
    assert_eq!(
        sx_to_css(&sx, &ThemeMode::System, &theme(), None, &vec![]).unwrap(),
        "color: var(--happy-palette-common-paper);"
    );
}

#[test]
fn variables_of_classes() {
    let sx = style(&[
        ("bgcolor", SxValue::var("sheet", "background-color", None)),
        ("color", SxValue::var("sheet", "textColor", Some(text("10px")))),
    ]);
    assert_eq!(
        compile(&sx, None).unwrap(),
        "background-color: var(--happy-sheet-background-color);color: var(--happy-sheet-text-color, 10px);"
    );
    let sx = style(&[("color", SxValue::var("sheet", "color", Some(text("common.black"))))]);
    assert_eq!(compile(&sx, None), Err(Error::InvalidFallback));
}

#[test]
fn computed_values_are_replaced_by_what_their_functions_gave() {
    let f = FnSxValue::with_id(1);
    let g = FnSxValue::with_id(2);
    let sx = style(&[("color", SxValue::Callback(f)), ("md", SxValue::Callback(g))]);
    assert_eq!(compile(&sx, None), Err(Error::UnresolvedCallback(1)));
    let results = vec![(1, SxValue::Callback(g))];
    let go = |results: &Vec<(u64, SxValue)>| sx_to_css(&sx, &ThemeMode::Light, &theme(), None, results);
    assert_eq!(go(&results), Err(Error::UnresolvedCallback(2)));
    let results = vec![(1, SxValue::Callback(g)), (2, nested(&[("color", text("common.black"))]))];
    assert_eq!(
        go(&results).unwrap(),
        " color {color: var(--happy-palette-common-black);} @media (min-width: 768px) {color: var(--happy-palette-common-black);}"
    );
    let results = vec![(1, SxValue::Callback(g)), (2, SxValue::Callback(f))];
    assert_eq!(go(&results), Err(Error::CallbackCycle));
    let results = vec![(2, nested(&[("a", SxValue::Callback(g))])), (1, SxValue::Integer(1))];
    assert_eq!(go(&results), Err(Error::CallbackCycle));
}

#[test]
fn rules_and_declarations_are_printed() {
    let rule = Rule {
        query: ".a".to_string(),
        block: vec![
            Declaration::Rule(Rule {
                query: ".a .b".to_string(),
                block: vec![Declaration::SetProperty {
                    property: "x".to_string(),
                    value: "1".to_string(),
                }],
            }),
            Declaration::SetProperty { property: "y".to_string(), value: "2".to_string() },
            Declaration::Rule(Rule { query: ".a .c".to_string(), block: vec![] }),
        ],
    };
    assert_eq!(rule.to_string(), ".a {y: 2;}.a .b {x: 1;}");
    assert_eq!(Declaration::Rule(rule).to_string(), ".a {y: 2;}.a .b {x: 1;}");
    assert_eq!(
        Declaration::SetProperty { property: "y".to_string(), value: "2".to_string() }.to_string(),
        "y: 2;"
    );
}

#[test]
fn names_are_translated() {
    let unit = TranslationUnit::new(&Breakpoints::default());
    assert_eq!(unit.translate("p"), vec!["padding".to_string()]);
    assert_eq!(unit.translate("pl"), vec!["padding-left".to_string()]);
    assert_eq!(unit.translate("pr"), vec!["padding-right".to_string()]);
    assert_eq!(unit.translate("pt"), vec!["padding-top".to_string()]);
    assert_eq!(unit.translate("pb"), vec!["padding-bottom".to_string()]);
    assert_eq!(unit.translate("pX"), vec!["margin-left".to_string(), "margin-right".to_string()]);
    assert_eq!(unit.translate("pY"), vec!["padding-top".to_string(), "padding-bottom".to_string()]);
    assert_eq!(unit.translate("bgcolor"), vec!["background-color".to_string()]);
    assert_eq!(unit.translate("bg"), vec!["background".to_string()]);
    assert_eq!(unit.translate("marginX"), vec!["margin-left".to_string(), "margin-right".to_string()]);
    assert_eq!(unit.translate("marginY"), vec!["margin-top".to_string(), "margin-bottom".to_string()]);
    assert_eq!(unit.translate("xs"), vec!["@media (min-width: 0px)".to_string()]);
    assert_eq!(unit.translate("md"), vec!["@media (min-width: 768px)".to_string()]);
    assert_eq!(unit.translate("xl"), vec!["@media (min-width: 1200px)".to_string()]);
    assert_eq!(unit.translate("borderWidth"), vec!["border-width".to_string()]);
    assert_eq!(unit.translate("&[color=success]"), vec!["&[color=success]".to_string()]);
    assert_eq!(unit.translate("[dataX]"), vec!["[dataX]".to_string()]);
    assert_eq!(unit.translate(".myBox"), vec![".myBox".to_string()]);
    assert_eq!(unit.translate(""), vec!["".to_string()]);
    let mut narrow = Breakpoints::new();
    narrow.set("p", 1);
    narrow.set("tiny", 65535);
    let unit = TranslationUnit::new(&narrow);
    assert_eq!(unit.translate("p"), vec!["padding".to_string()]);
    assert_eq!(unit.translate("tiny"), vec!["@media (min-width: 65535px)".to_string()]);
    assert_eq!(unit.translate("md"), vec!["md".to_string()]);
    assert_eq!(media_query_text(7), "@media (min-width: 7px)");
}

#[test]
fn the_shorthand_table_alone_leaves_names_as_they_are() {
    let props: SystemProperties = system_properties();
    assert_eq!(props.translate("pl"), vec!["paddingLeft".to_string()]);
    assert_eq!(props.translate("md"), vec!["md".to_string()]);
    assert_eq!(props.translate("borderWidth"), vec!["borderWidth".to_string()]);
    assert_eq!(props.clone().find("bg"), Some(&vec!["background".to_string()]));
    assert_eq!(SystemProperties::new().find("nothing"), None);
}

#[test]
fn property_names_keep_their_operators() {
    assert_eq!(to_property("fontSize.lineHeight"), "font-size.line-height");
    assert_eq!(to_property("a,bC"), "a,b-c");
    assert_eq!(to_property("aB>"), "a-b>");
    assert_eq!(to_property(""), "");
    assert_eq!(to_property("[aB"), "[aB");
    assert_eq!(to_property("&aB"), "&aB");
    assert_eq!(to_property("-"), "-");
    assert_eq!(to_property("a--bC-"), "a--b-c-");
}
