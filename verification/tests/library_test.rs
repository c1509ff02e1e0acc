use css_module_lexer::chars::{
    are_valid_escape, is_digit, is_hex_digit, is_ident, is_ident_start, is_new_line, is_space,
    is_white_space, maybe_valid_escape, start_ident_sequence, start_number,
};
use css_module_lexer::collect_dependencies;
use css_module_lexer::dependencies::{
    with_vendor_prefixed_eq, AnimationReserved, BalancedItem, BalancedItemKind, ImportData,
    InProperty,
};
use css_module_lexer::lex_dependencies;
use css_module_lexer::postcss_modules::rewrite_local_by_default;
use css_module_lexer::Dependency;
use css_module_lexer::Lexer;
use css_module_lexer::LocalByDefault;
use css_module_lexer::Mode;
use css_module_lexer::ModeData;
use css_module_lexer::Range;
use css_module_lexer::UrlRangeKind;
use css_module_lexer::Warning;
use css_module_lexer::WarningKind;

fn slice_range<'a>(input: &'a str, range: &Range) -> Option<&'a str> {
    input.get(range.start as usize..range.end as usize)
}

#[test]
fn char_classes() {
    assert!(is_new_line('\n') && is_new_line('\r') && is_new_line('\u{c}'));
    assert!(!is_new_line(' '));
    assert!(is_space(' ') && is_space('\t') && !is_space('\n'));
    assert!(is_white_space('\n') && is_white_space(' ') && !is_white_space('a'));
    assert!(is_digit('0') && is_digit('9') && !is_digit('a'));
    assert!(is_hex_digit('f') && is_hex_digit('F') && is_hex_digit('7') && !is_hex_digit('g'));
    assert!(is_ident_start('a') && is_ident_start('_') && is_ident_start('é') && !is_ident_start('1'));
    assert!(is_ident('1') && is_ident('-') && !is_ident(' '));
    assert!(maybe_valid_escape('\\') && !maybe_valid_escape('a'));
    assert!(are_valid_escape('\\', 'a') && !are_valid_escape('\\', '\n') && !are_valid_escape('a', 'b'));
    assert!(start_ident_sequence('-', '-', 'a'));
    assert!(start_ident_sequence('-', 'a', ' '));
    assert!(start_ident_sequence('a', ' ', ' '));
    assert!(!start_ident_sequence('-', '1', ' '));
    assert!(start_number('+', '1', ' ') && start_number('.', '5', ' ') && start_number('-', '.', '5'));
    assert!(!start_number('-', 'a', ' ') && !start_number('.', 'a', ' '));
}

#[test]
fn lexer_cursor() {
    let mut lexer = Lexer::new("ab");
    assert_eq!(lexer.cur(), None);
    assert_eq!(lexer.peek(), Some('a'));
    assert_eq!(lexer.peek2(), Some('b'));
    assert_eq!(lexer.consume(), Some('a'));
    assert_eq!(lexer.cur_pos(), Some(0));
    assert_eq!(lexer.peek(), Some('b'));
    assert_eq!(lexer.consume(), Some('b'));
    assert_eq!(lexer.cur_pos(), Some(1));
    assert_eq!(lexer.consume(), None);
    assert_eq!(lexer.slice(0, 2), Some("ab"));
    assert_eq!(lexer.slice(1, 0), None);
}

#[test]
fn lexer_slice_needs_char_boundaries() {
    let lexer = Lexer::new("a😃b");
    assert_eq!(lexer.slice(1, 5), Some("😃"));
    assert_eq!(lexer.slice(1, 3), None);
    assert_eq!(lexer.slice(0, 7), None);
}

#[test]
fn balanced_item_kinds() {
    assert!(matches!(BalancedItemKind::new("url("), BalancedItemKind::Url));
    assert!(matches!(BalancedItemKind::new("image-set("), BalancedItemKind::ImageSet));
    assert!(matches!(BalancedItemKind::new("-webkit-image-set("), BalancedItemKind::ImageSet));
    assert!(matches!(BalancedItemKind::new(":local("), BalancedItemKind::LocalFn));
    assert!(matches!(BalancedItemKind::new(":global"), BalancedItemKind::GlobalClass));
    assert!(matches!(BalancedItemKind::new("calc("), BalancedItemKind::Other));
    let item = BalancedItem::new("layer(", 3, 9);
    assert!(matches!(item.kind, BalancedItemKind::Layer));
    assert_eq!(item.range, Range::new(3, 9));
    assert!(with_vendor_prefixed_eq("-webkit-keyframes", "keyframes", false));
    assert!(with_vendor_prefixed_eq("@-moz-keyframes", "keyframes", true));
    assert!(!with_vendor_prefixed_eq("-webkit-keyframes", "keyframes", true));
    assert!(!with_vendor_prefixed_eq("keyframes", "keyframes", false));
}

#[test]
fn import_data_ranges() {
    let data = ImportData::new(4);
    assert_eq!(data.start, 4);
    assert!(!data.in_supports());
    assert_eq!(data.layer_range(), None);
    assert_eq!(data.supports_range(), None);
}

#[test]
fn mode_data_starts_in_default_mode() {
    let data = ModeData::new(Mode::Pure);
    assert!(data.is_pure_mode());
    assert!(data.is_current_local_mode());
    assert!(data.is_property_local_mode());
    assert_eq!(data.default_mode(), Mode::Pure);
    assert!(!data.is_mode_explicit());
    let data = ModeData::new(Mode::Global);
    assert!(!data.is_current_local_mode());
}

#[test]
fn animation_keywords_are_reserved_once() {
    let mut property = InProperty::new(AnimationReserved::new(), 0);
    property.set_rename("ease", Range::new(0, 4));
    assert_eq!(property.rename, None);
    property.set_rename("ease", Range::new(5, 9));
    assert_eq!(property.rename, Some(Range::new(5, 9)));
    property.set_rename("none", Range::new(10, 14));
    assert_eq!(property.rename, Some(Range::new(5, 9)));
    assert_eq!(property.take_rename(1), None);
    assert_eq!(property.take_rename(0), Some(Range::new(5, 9)));
    assert_eq!(property.take_rename(0), None);
}

#[test]
fn warning_messages() {
    let range = Range::new(0, 1);
    let cases = [
        (WarningKind::Unexpected { message: "oops" }, "oops"),
        (
            WarningKind::DuplicateUrl { when: "@import url(a) url(b)" },
            "Duplicate of 'url(...)' in '@import url(a) url(b)'",
        ),
        (
            WarningKind::NamespaceNotSupportedInBundledCss,
            "'@namespace' is not supported in bundled CSS",
        ),
        (WarningKind::NotPrecededAtImport, "Any '@import' rules must precede all other rules"),
        (WarningKind::ExpectedUrl { when: "@import ;" }, "Expected URL in '@import ;'"),
        (
            WarningKind::ExpectedUrlBefore { when: "layer url(a)" },
            "An URL in 'layer url(a)' should be before 'layer(...)' or 'supports(...)'",
        ),
        (
            WarningKind::ExpectedLayerBefore { when: "supports() layer" },
            "The 'layer(...)' in 'supports() layer' should be before 'supports(...)'",
        ),
        (
            WarningKind::InconsistentModeResult,
            "Inconsistent rule global/local (multiple selectors must result in the same mode for the rule)",
        ),
        (
            WarningKind::ExpectedNotInside { pseudo: ":local(" },
            "A ':local(' is not allowed inside of a ':local()' or ':global()'",
        ),
        (WarningKind::MissingWhitespace { surrounding: "leading" }, "Missing leading whitespace"),
        (
            WarningKind::NotPure { message: "why" },
            "Pure globals is not allowed in pure mode, why",
        ),
        (WarningKind::UnexpectedComposition { message: "odd" }, "Composition is odd"),
    ];
    for (kind, message) in cases {
        let warning = Warning::new(range, kind);
        assert_eq!(*warning.range(), range);
        assert_eq!(warning.message(), message);
    }
}

fn single_warning<'s>(input: &'s str, mode: Mode) -> Warning<'s> {
    let (_, warnings) = collect_dependencies(input, mode);
    assert_eq!(warnings.len(), 1);
    warnings[0].clone()
}

#[test]
fn warning_namespace_not_supported() {
    let input = "@namespace url(http://www.w3.org/1999/xhtml);";
    let (dependencies, warnings) = collect_dependencies(input, Mode::Css);
    assert!(dependencies.is_empty());
    assert_eq!(warnings.len(), 1);
    assert_eq!(warnings[0].kind, WarningKind::NamespaceNotSupportedInBundledCss);
    assert_eq!(slice_range(input, &warnings[0].range), Some("@namespace"));
}

#[test]
fn warning_expected_url_before() {
    let input = "@import layer url(a.css);";
    let warning = single_warning(input, Mode::Css);
    assert_eq!(warning.kind, WarningKind::ExpectedUrlBefore { when: "layer url(a.css)" });
    assert_eq!(slice_range(input, &warning.range), Some("url(a.css)"));
}

#[test]
fn warning_not_pure() {
    let input = ":global .a {}";
    let warning = single_warning(input, Mode::Pure);
    assert_eq!(
        warning.kind,
        WarningKind::NotPure {
            message: "Selector is not pure (pure selectors must contain at least one local class or id)"
        }
    );
    assert_eq!(warning.range, Range::new(0, 11));
}

#[test]
fn warning_inconsistent_mode_result() {
    let input = ":global .a, .b {}";
    let warning = single_warning(input, Mode::Local);
    assert_eq!(warning.kind, WarningKind::InconsistentModeResult);
    assert_eq!(warning.range, Range::new(10, 15));
}

#[test]
fn warning_expected_not_inside() {
    let input = ".a :local(.b :local(.c)) {}";
    let warning = single_warning(input, Mode::Local);
    assert_eq!(warning.kind, WarningKind::ExpectedNotInside { pseudo: ":local(" });
    assert_eq!(slice_range(input, &warning.range), Some(":local("));
}

#[test]
fn warning_missing_white_space() {
    let input = ".a:global {}";
    let warning = single_warning(input, Mode::Local);
    assert_eq!(warning.kind, WarningKind::MissingWhitespace { surrounding: "leading" });
    assert_eq!(slice_range(input, &warning.range), Some(":global"));
}

#[test]
fn warning_unexpected_composition() {
    let input = ".a { composes: b; } .c .d { composes: e; }";
    let (dependencies, warnings) = collect_dependencies(input, Mode::Local);
    assert_eq!(warnings.len(), 1);
    assert_eq!(
        warnings[0].kind,
        WarningKind::UnexpectedComposition {
            message: "only allowed when selector is single :local class"
        }
    );
    assert_eq!(slice_range(input, &warnings[0].range), Some("composes"));
    let Dependency::Composes { local_classes, names, from, .. } = &dependencies[1] else {
        panic!("expected a composition");
    };
    assert_eq!(local_classes.to_vec(), vec!["a"]);
    assert_eq!(local_classes.count(), 1);
    assert_eq!(names.to_vec(), vec!["b"]);
    assert_eq!(*from, None);
    let nested = single_warning(".a { .b { composes: c; } }", Mode::Local);
    assert_eq!(
        nested.kind,
        WarningKind::UnexpectedComposition { message: "not allowed in nested rule" }
    );
}

#[test]
fn warning_empty_local_function() {
    let input = ":local() {}";
    let warning = single_warning(input, Mode::Local);
    assert_eq!(
        warning.kind,
        WarningKind::Unexpected { message: "':global()' or ':local()' can't be empty" }
    );
    assert_eq!(slice_range(input, &warning.range), Some("()"));
}

#[test]
fn warning_var_without_dashes() {
    let input = ".a { color: var(x); }";
    let warning = single_warning(input, Mode::Local);
    assert_eq!(
        warning.kind,
        WarningKind::Unexpected { message: "Expected starts with '--' during parsing of 'var()'" }
    );
    assert_eq!(slice_range(input, &warning.range), Some("x)"));
}

#[test]
fn plain_css_reports_only_urls_and_imports() {
    let input = "@import url(a.css); :global .a { background: url(b.png); animation: foo; } .c { composes: d; }";
    let (dependencies, warnings) = collect_dependencies(input, Mode::Css);
    assert!(warnings.is_empty());
    assert_eq!(dependencies.len(), 2);
    assert!(matches!(dependencies[0], Dependency::Import { request: "a.css", .. }));
    assert!(matches!(
        dependencies[1],
        Dependency::Url { request: "b.png", kind: UrlRangeKind::Function, .. }
    ));
    for dependency in &dependencies {
        assert!(matches!(dependency, Dependency::Url { .. } | Dependency::Import { .. }));
    }
}

#[test]
fn names_are_the_text_at_their_ranges() {
    let input = ".a #b { animation: c; --d: var(--e); } @keyframes f {} @counter-style g {}";
    let (dependencies, _) = collect_dependencies(input, Mode::Local);
    assert!(!dependencies.is_empty());
    for dependency in &dependencies {
        match dependency {
            Dependency::LocalClass { name, range, .. }
            | Dependency::LocalId { name, range, .. }
            | Dependency::LocalKeyframes { name, range }
            | Dependency::LocalKeyframesDecl { name, range }
            | Dependency::LocalCounterStyleDecl { name, range } => {
                assert_eq!(slice_range(input, range), Some(*name));
            }
            Dependency::LocalVar { name, range, .. } | Dependency::LocalVarDecl { name, range } => {
                assert_eq!(slice_range(input, range).map(|s| &s[2..]), Some(*name));
            }
            _ => {}
        }
    }
}

#[test]
fn empty_and_unicode_inputs() {
    let (dependencies, warnings) = collect_dependencies("", Mode::Local);
    assert!(dependencies.is_empty() && warnings.is_empty());
    let input = "😃 .a {} é { animation: 😃x; }";
    let (dependencies, warnings) = collect_dependencies(input, Mode::Local);
    assert!(warnings.is_empty());
    assert!(matches!(dependencies[0], Dependency::LocalClass { name: ".a", .. }));
    assert!(matches!(dependencies[1], Dependency::LocalKeyframes { name: "😃x", .. }));
}

#[test]
fn lex_dependencies_keeps_what_the_handlers_held() {
    let input = ".a {}";
    let earlier = Dependency::Url {
        request: "x.png",
        range: Range::new(0, 0),
        kind: UrlRangeKind::String,
    };
    let (dependencies, warnings) =
        lex_dependencies(input, Mode::Local, vec![earlier.clone()], Vec::new());
    assert_eq!(dependencies.len(), 2);
    assert_eq!(dependencies[0], earlier);
    assert!(matches!(dependencies[1], Dependency::LocalClass { name: ".a", .. }));
    assert!(warnings.is_empty());
}

#[test]
fn transform_local_by_default() {
    let local = LocalByDefault { mode: Mode::Local };
    let (text, warnings) = local.transform(".foo { animation: foo; }");
    assert_eq!(text, ":local(.foo) { animation: :local(foo); }");
    assert!(warnings.is_empty());
    let (text, _) = local.transform("#foo.bar {}");
    assert_eq!(text, ":local(#foo):local(.bar) {}");
    let (text, _) = local.transform(":export { a: b; } .c {}");
    assert_eq!(text, ":export { a: b; } :local(.c) {}");
}

#[test]
fn transform_keeps_imported_names() {
    let local = LocalByDefault { mode: Mode::Local };
    let input = ":import(\"./a.css\") { foo: bar; } .foo {}";
    assert_eq!(local.transform(input).0, input);
    let (text, _) = local.transform(":import(\"a\") { foo: x; } .a { animation: foo; }");
    assert_eq!(text, ":import(\"a\") { foo: x; } :local(.a) { animation: foo; }");
}

#[test]
fn transform_plain_css_is_unchanged() {
    let css = LocalByDefault { mode: Mode::Css };
    let input = ".foo :global(.bar) { animation: baz; }";
    let (text, warnings) = css.transform(input);
    assert_eq!(text, input);
    assert!(warnings.is_empty());
}

#[test]
fn rewrite_from_given_dependencies() {
    let input = ".a :global(.b) {}";
    let dependencies = vec![
        Dependency::LocalClass { name: ".a", range: Range::new(0, 2), explicit: false },
        Dependency::Replace { content: "", range: Range::new(3, 11) },
        Dependency::Replace { content: "", range: Range::new(13, 14) },
    ];
    assert_eq!(
        rewrite_local_by_default(input, &dependencies).as_deref(),
        Some(":local(.a) .b {}")
    );
    let backwards = vec![
        Dependency::LocalClass { name: ".b", range: Range::new(11, 13), explicit: false },
        Dependency::LocalClass { name: ".a", range: Range::new(0, 2), explicit: false },
    ];
    assert_eq!(rewrite_local_by_default(input, &backwards), None);
    let aliased = vec![
        Dependency::ICSSImportValue { prop: "a", value: "x" },
        Dependency::LocalClass { name: ".a", range: Range::new(0, 2), explicit: false },
        Dependency::LocalClass { name: ".a", range: Range::new(0, 2), explicit: true },
    ];
    assert_eq!(
        rewrite_local_by_default(".a b", &aliased).as_deref(),
        Some(":local(.a) b")
    );
}

#[test]
fn unbalanced_parenthesis_after_global_does_not_stop_lexing() {
    let (dependencies, _warnings) = collect_dependencies(".a :global) {}\n.c {}\n", Mode::Local);
    assert!(dependencies
        .iter()
        .any(|d| matches!(d, Dependency::LocalClass { name: ".c", .. })));
}

#[test]
fn import_with_media_is_reported_once() {
    let (dependencies, warnings) =
        collect_dependencies("@import url(\"style.css\") screen;\n", Mode::Css);
    assert!(warnings.is_empty());
    assert_eq!(dependencies.len(), 1);
    assert!(matches!(
        dependencies[0],
        Dependency::Import { request: "style.css", media: Some(" screen"), .. }
    ));
}

#[test]
fn transform_warns_on_leading_namespace() {
    let local = LocalByDefault { mode: Mode::Local };
    let (_text, warnings) = local.transform("@namespace svg url(http://www.w3.org/2000/svg);\n");
    assert!(warnings.contains(&Warning::new(
        Range::new(0, 10),
        WarningKind::NamespaceNotSupportedInBundledCss
    )));
}

#[test]
fn leading_namespace_warns_in_every_mode() {
    for mode in [Mode::Css, Mode::Local, Mode::Global, Mode::Pure] {
        let (_dependencies, warnings) = collect_dependencies("@namespace x;", mode);
        assert!(warnings.contains(&Warning::new(
            Range::new(0, 10),
            WarningKind::NamespaceNotSupportedInBundledCss
        )));
    }
}

#[test]
fn opening_class_is_local_in_local_modes() {
    let input = ".ab-c, .d {}";
    for mode in [Mode::Local, Mode::Pure] {
        let (dependencies, warnings) = collect_dependencies(input, mode);
        assert!(warnings.is_empty());
        assert_eq!(
            dependencies[0],
            Dependency::LocalClass { name: ".ab-c", range: Range::new(0, 5), explicit: false }
        );
    }
    for mode in [Mode::Css, Mode::Global] {
        let (dependencies, _) = collect_dependencies(input, mode);
        assert!(!dependencies.iter().any(|d| matches!(d, Dependency::LocalClass { .. })));
    }
}

#[test]
fn opening_id_is_local_in_local_modes() {
    let input = "#ab .c {}";
    for mode in [Mode::Local, Mode::Pure] {
        let (dependencies, _) = collect_dependencies(input, mode);
        assert_eq!(
            dependencies[0],
            Dependency::LocalId { name: "#ab", range: Range::new(0, 3), explicit: false }
        );
    }
    let (dependencies, warnings) = collect_dependencies(input, Mode::Local);
    assert!(warnings.is_empty());
    assert_eq!(dependencies.len(), 2);
    let (dependencies, _) = collect_dependencies(input, Mode::Global);
    assert!(dependencies.is_empty());
}
