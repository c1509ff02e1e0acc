//! The visitor that turns the tokens of a CSS module into its dependencies.
use vstd::prelude::*;
use vstd::string::StringSliceAdditionalSpecFns;
use vstd::utf8::encode_utf8;

use crate::postcss_modules::lemma_encode_utf8_concat;

use crate::chars::{
    is_white_space, spec_is_ident, spec_is_white_space, spec_start_ident_sequence,
    start_ident_sequence, C_ASTERISK,
    C_COLON, C_COMMA, C_HYPHEN_MINUS, C_LEFT_CURLY, C_LEFT_PARENTHESIS, C_RIGHT_CURLY,
    C_RIGHT_PARENTHESIS, C_SEMICOLON, C_SOLIDUS,
};
use crate::dependencies::{
    dec_by, dependency_wf, is_css_dependency, spec_balanced_kind, is_text_at, is_text_in, lemma_topmost_mode_not_css,
    mode_data_after_push, spec_topmost_mode,
    range_within, spec_with_vendor_prefixed_eq, warning_wf, with_vendor_prefixed_eq,
    AnimationReserved, BalancedItem, BalancedItemKind, BalancedStack, ComposesLocalClasses,
    Dependency, FontPaletteReserved, HandleDependency, HandleWarning, ImportData,
    ImportDataLayer, ImportDataSupports, InProperty, ListStyleReserved, Mode, ModeData, Range,
    ReservedValues,
    SingleLocalClass, UrlRangeKind, Warning, WarningKind,
};
use crate::lexer::{at_keyword_at, class_at, id_at, white_space_up_to, Lexer, Pos, Token, Visitor};
use crate::lists::{name_list_view, NameList, MAX_LIST_LEN};
use crate::scan::{back_white_space_and_comments_distance, should_have_after_white_space};
use crate::text::{
    ascii_lower, byte_offset, bytes_eq_ignore_ascii_case, char_width, bytes_starts_with, lemma_byte_offset_ascii,
    lemma_byte_offset_boundary, lemma_byte_offset_mono, lemma_encode_utf8_len, eq_ignore_ascii_case, is_str_range, is_white_space_byte, str_eq, str_starts_with,
    trim_end_white_space,
};

verus! {

/// The empty replacement text.
fn empty_text() -> (r: &'static str)
    ensures
        r.spec_bytes().len() == 0,
{
    proof {
        reveal_strlit("");
    }
    ""
}

/// Where the lexer is in the structure of the style sheet.
#[derive(Clone, Copy)]
pub enum Scope<'s> {
    TopLevel,
    InBlock,
    InAtImport(ImportData<'s>),
    AtImportInvalid,
    AtNamespaceInvalid,
}

/// What an `@import` collects satisfies, before it becomes a dependency.
pub open spec fn import_data_wf(input: Seq<u8>, d: ImportData) -> bool {
    &&& d.start <= input.len()
    &&& (d.url matches Some(u) ==> is_text_in(input, u))
    &&& (d.url_range matches Some(r) ==> range_within(input, r))
    &&& (d.supports matches ImportDataSupports::EndSupports { value, range } ==> is_text_in(
        input,
        value,
    ) && range_within(input, range))
    &&& (d.layer matches ImportDataLayer::EndLayer { value, range } ==> is_text_in(input, value)
        && range_within(input, range))
}

/// `after` is `before` followed by dependencies that each satisfy `p`.
pub open spec fn extends_with<'s>(
    before: Seq<Dependency<'s>>,
    after: Seq<Dependency<'s>>,
    p: spec_fn(Dependency<'s>) -> bool,
) -> bool {
    &&& before.len() <= after.len()
    &&& after.subrange(0, before.len() as int) == before
    &&& forall|i: int| before.len() <= i < after.len() ==> #[trigger] p(after[i])
}

proof fn lemma_extends_refl<'s>(a: Seq<Dependency<'s>>, p: spec_fn(Dependency<'s>) -> bool)
    ensures
        extends_with(a, a, p),
{
    assert(a.subrange(0, a.len() as int) =~= a);
}

proof fn lemma_extends_push<'s>(
    a: Seq<Dependency<'s>>,
    b: Seq<Dependency<'s>>,
    d: Dependency<'s>,
    p: spec_fn(Dependency<'s>) -> bool,
)
    requires
        extends_with(a, b, p),
        p(d),
    ensures
        extends_with(a, b.push(d), p),
{
    assert(b.push(d).subrange(0, a.len() as int) =~= b.subrange(0, a.len() as int));
    assert forall|i: int| a.len() <= i < b.push(d).len() implies #[trigger] p(b.push(d)[i]) by {
        if i < b.len() {
            assert(b.push(d)[i] == b[i]);
        }
    }
}

/// `composes` and `compose-with` are none of the other property names a
/// declaration in a block is checked against.
proof fn lemma_composes_word(x: Seq<u8>)
    requires
        bytes_eq_ignore_ascii_case(x, "composes".spec_bytes()) || bytes_eq_ignore_ascii_case(
            x,
            "compose-with".spec_bytes(),
        ),
    ensures
        !(2 <= x.len() && x.subrange(0, 2) == "--".spec_bytes()),
        !bytes_eq_ignore_ascii_case(x, "animation".spec_bytes()),
        !bytes_eq_ignore_ascii_case(x, "animation-name".spec_bytes()),
        !spec_with_vendor_prefixed_eq(x, "animation".spec_bytes(), false),
        !spec_with_vendor_prefixed_eq(x, "animation-name".spec_bytes(), false),
        !bytes_eq_ignore_ascii_case(x, "list-style".spec_bytes()),
        !bytes_eq_ignore_ascii_case(x, "list-style-type".spec_bytes()),
        !bytes_eq_ignore_ascii_case(x, "font-palette".spec_bytes()),
{
    reveal_strlit("composes");
    vstd::string::is_ascii_spec_bytes("composes");
    reveal_strlit("compose-with");
    vstd::string::is_ascii_spec_bytes("compose-with");
    reveal_strlit("--");
    vstd::string::is_ascii_spec_bytes("--");
    reveal_strlit("animation");
    vstd::string::is_ascii_spec_bytes("animation");
    reveal_strlit("animation-name");
    vstd::string::is_ascii_spec_bytes("animation-name");
    reveal_strlit("list-style");
    vstd::string::is_ascii_spec_bytes("list-style");
    reveal_strlit("list-style-type");
    vstd::string::is_ascii_spec_bytes("list-style-type");
    reveal_strlit("font-palette");
    vstd::string::is_ascii_spec_bytes("font-palette");
    reveal_strlit("-webkit-");
    vstd::string::is_ascii_spec_bytes("-webkit-");
    reveal_strlit("-moz-");
    vstd::string::is_ascii_spec_bytes("-moz-");
    reveal_strlit("-ms-");
    vstd::string::is_ascii_spec_bytes("-ms-");
    reveal_strlit("-o-");
    vstd::string::is_ascii_spec_bytes("-o-");
    assert(x.len() > 0);
    assert(ascii_lower(x[0]) == 99u8);
    let l = x.subrange(0, x.len() as int);
    assert(l[0] == x[0]);
    if 2 <= x.len() && x.subrange(0, 2) == "--".spec_bytes() {
        assert(x.subrange(0, 2)[0] == x[0]);
    }
    if bytes_starts_with(l, "-webkit-".spec_bytes()) {
        assert(l.subrange(0, 8)[0] == l[0]);
    }
    if bytes_starts_with(l, "-moz-".spec_bytes()) {
        assert(l.subrange(0, 5)[0] == l[0]);
    }
    if bytes_starts_with(l, "-ms-".spec_bytes()) {
        assert(l.subrange(0, 4)[0] == l[0]);
    }
    if bytes_starts_with(l, "-o-".spec_bytes()) {
        assert(l.subrange(0, 3)[0] == l[0]);
    }
}

/// The names of the `@`-rules that declare a local name, and `@scope`, are
/// none of the other `@`-rule names an at-keyword is checked against.
proof fn lemma_at_rule_word(x: Seq<u8>)
    requires
        bytes_eq_ignore_ascii_case(x, "@property".spec_bytes()) || bytes_eq_ignore_ascii_case(x, "@counter-style".spec_bytes()) || bytes_eq_ignore_ascii_case(x, "@font-palette-values".spec_bytes()) || bytes_eq_ignore_ascii_case(x, "@scope".spec_bytes()),
    ensures
        !bytes_eq_ignore_ascii_case(x, "@namespace".spec_bytes()),
        !bytes_eq_ignore_ascii_case(x, "@import".spec_bytes()),
        !bytes_eq_ignore_ascii_case(x, "@keyframes".spec_bytes()),
        !spec_with_vendor_prefixed_eq(x, "keyframes".spec_bytes(), true),
        !(bytes_eq_ignore_ascii_case(x, "@property".spec_bytes()) && bytes_eq_ignore_ascii_case(x, "@scope".spec_bytes())),
        !(bytes_eq_ignore_ascii_case(x, "@counter-style".spec_bytes()) && bytes_eq_ignore_ascii_case(x, "@property".spec_bytes())),
        !(bytes_eq_ignore_ascii_case(x, "@counter-style".spec_bytes()) && bytes_eq_ignore_ascii_case(x, "@font-palette-values".spec_bytes())),
        !(bytes_eq_ignore_ascii_case(x, "@counter-style".spec_bytes()) && bytes_eq_ignore_ascii_case(x, "@scope".spec_bytes())),
        !(bytes_eq_ignore_ascii_case(x, "@font-palette-values".spec_bytes()) && bytes_eq_ignore_ascii_case(x, "@property".spec_bytes())),
        !(bytes_eq_ignore_ascii_case(x, "@font-palette-values".spec_bytes()) && bytes_eq_ignore_ascii_case(x, "@scope".spec_bytes())),
{
    reveal_strlit("@property");
    vstd::string::is_ascii_spec_bytes("@property");
    reveal_strlit("@counter-style");
    vstd::string::is_ascii_spec_bytes("@counter-style");
    reveal_strlit("@font-palette-values");
    vstd::string::is_ascii_spec_bytes("@font-palette-values");
    reveal_strlit("@scope");
    vstd::string::is_ascii_spec_bytes("@scope");
    reveal_strlit("@namespace");
    vstd::string::is_ascii_spec_bytes("@namespace");
    reveal_strlit("@import");
    vstd::string::is_ascii_spec_bytes("@import");
    reveal_strlit("@keyframes");
    vstd::string::is_ascii_spec_bytes("@keyframes");
    reveal_strlit("keyframes");
    vstd::string::is_ascii_spec_bytes("keyframes");
    reveal_strlit("-webkit-");
    vstd::string::is_ascii_spec_bytes("-webkit-");
    reveal_strlit("-moz-");
    vstd::string::is_ascii_spec_bytes("-moz-");
    reveal_strlit("-ms-");
    vstd::string::is_ascii_spec_bytes("-ms-");
    reveal_strlit("-o-");
    vstd::string::is_ascii_spec_bytes("-o-");
    let l = x.subrange(1, x.len() as int);
    assert(x.len() > 1);
    assert(l[0] == x[1]);
    assert(ascii_lower(x[1]) != 45u8);
    if bytes_starts_with(l, "-webkit-".spec_bytes()) {
        assert(l.subrange(0, 8)[0] == l[0]);
    }
    if bytes_starts_with(l, "-moz-".spec_bytes()) {
        assert(l.subrange(0, 5)[0] == l[0]);
    }
    if bytes_starts_with(l, "-ms-".spec_bytes()) {
        assert(l.subrange(0, 4)[0] == l[0]);
    }
    if bytes_starts_with(l, "-o-".spec_bytes()) {
        assert(l.subrange(0, 3)[0] == l[0]);
    }
}

/// When `t` is an at-keyword of `input` that reads `@namespace`, `warnings`
/// holds the warning that it gives.
pub open spec fn namespace_warned<'s>(warnings: Seq<Warning<'s>>, t: Token, input: &'s str) -> bool {
    match t {
        Token::AtKeyword { start, end } => is_str_range(input, start as int, end as int)
            && bytes_eq_ignore_ascii_case(
            input.spec_bytes().subrange(start as int, end as int),
            "@namespace".spec_bytes(),
        ) ==> warnings.contains(
            Warning {
                range: Range { start, end },
                kind: WarningKind::NamespaceNotSupportedInBundledCss,
            },
        ),
        _ => true,
    }
}

/// A class or id selector handed over as the first token of the text
/// `input`, when lexing started in a mode that scopes names locally, has been
/// reported as a local class or local id named by its text, with no explicit
/// mode.
pub open spec fn first_selector_reported<'s>(
    dependencies: Seq<Dependency<'s>>,
    mode: Mode,
    t: Token,
    input: &'s str,
) -> bool {
    match t {
        Token::Class { start, end } => (mode == Mode::Local || mode == Mode::Pure) && is_str_range(
            input,
            start as int,
            end as int,
        ) && input.spec_bytes().subrange(start as int, end as int) != ".".spec_bytes() ==> exists|i: int|
            0 <= i < dependencies.len() && (#[trigger] dependencies[i] matches Dependency::LocalClass {
                name,
                range,
                explicit,
            } && name.spec_bytes() == input.spec_bytes().subrange(start as int, end as int) && range == (
            Range { start, end }) && !explicit),
        Token::Id { start, end } => (mode == Mode::Local || mode == Mode::Pure) && is_str_range(
            input,
            start as int,
            end as int,
        ) && input.spec_bytes().subrange(start as int, end as int) != "#".spec_bytes() ==> exists|i: int|
            0 <= i < dependencies.len() && (#[trigger] dependencies[i] matches Dependency::LocalId {
                name,
                range,
                explicit,
            } && name.spec_bytes() == input.spec_bytes().subrange(start as int, end as int) && range == (
            Range { start, end }) && !explicit),
        _ => true,
    }
}

proof fn lemma_first_selector_reported_grows<'s>(
    before: Seq<Dependency<'s>>,
    after: Seq<Dependency<'s>>,
    mode: Mode,
    t: Token,
    input: &'s str,
)
    requires
        before.len() <= after.len(),
        forall|i: int| 0 <= i < before.len() ==> after[i] == before[i],
    ensures
        first_selector_reported(before, mode, t, input) ==> first_selector_reported(after, mode, t, input),
{
    if let Token::Class { start, end } = t {
        if first_selector_reported(before, mode, t, input) && (mode == Mode::Local || mode == Mode::Pure)
            && is_str_range(input, start as int, end as int) && input.spec_bytes().subrange(
            start as int,
            end as int,
        ) != ".".spec_bytes() {
            let i = choose|i: int|
                0 <= i < before.len() && (#[trigger] before[i] matches Dependency::LocalClass {
                    name,
                    range,
                    explicit,
                } && name.spec_bytes() == input.spec_bytes().subrange(start as int, end as int) && range
                    == (Range { start, end }) && !explicit);
            assert(after[i] == before[i]);
        }
    }
    if let Token::Id { start, end } = t {
        if first_selector_reported(before, mode, t, input) && (mode == Mode::Local || mode == Mode::Pure)
            && is_str_range(input, start as int, end as int) && input.spec_bytes().subrange(
            start as int,
            end as int,
        ) != "#".spec_bytes() {
            let i = choose|i: int|
                0 <= i < before.len() && (#[trigger] before[i] matches Dependency::LocalId {
                    name,
                    range,
                    explicit,
                } && name.spec_bytes() == input.spec_bytes().subrange(start as int, end as int) && range
                    == (Range { start, end }) && !explicit);
            assert(after[i] == before[i]);
        }
    }
}

proof fn lemma_namespace_warned_grows<'s>(
    before: Seq<Warning<'s>>,
    after: Seq<Warning<'s>>,
    t: Token,
    input: &'s str,
)
    requires
        before.len() <= after.len(),
        forall|i: int| 0 <= i < before.len() ==> after[i] == before[i],
    ensures
        namespace_warned(before, t, input) ==> namespace_warned(after, t, input),
{
    if let Token::AtKeyword { start, end } = t {
        let w = Warning {
            range: Range { start, end },
            kind: WarningKind::NamespaceNotSupportedInBundledCss,
        };
        if before.contains(w) {
            let i = choose|i: int| 0 <= i < before.len() && before[i] == w;
            assert(after[i] == w);
        }
    }
}

/// A text that opens with `@namespace` and a character that cannot continue
/// the name has that at-keyword at bytes `0..10`.
proof fn lemma_namespace_opening(input: &str)
    requires
        input@.len() > 10,
        input@.subrange(0, 10) == "@namespace"@,
        !spec_is_ident(input@[10]),
        input@[10] != '\\',
    ensures
        at_keyword_at(input@, 0, 10),
        byte_offset(input@, 10) == 10,
        is_str_range(input, 0, 10),
        bytes_eq_ignore_ascii_case(input.spec_bytes().subrange(0, 10), "@namespace".spec_bytes()),
{
    reveal_strlit("@namespace");
    let t = input@;
    let a = t.subrange(0, 10);
    let b = t.subrange(10, t.len() as int);
    assert(t =~= a + b);
    assert forall|m: int| 0 <= m < 10 implies #[trigger] t[m] == a[m] by {}
    assert(t[0] == '@' && t[1] == 'n' && t[2] == 'a' && t[3] == 'm');
    assert forall|m: int| 1 <= m < 10 implies spec_is_ident(#[trigger] t[m]) by {
        assert(t[m] == a[m]);
    }
    assert forall|m: int| 0 <= m < 10 implies (#[trigger] t[m] as u32) < 0x80 by {
        assert(t[m] == a[m]);
    }
    lemma_byte_offset_ascii(t, 10);
    lemma_byte_offset_ascii(a, 10);
    lemma_byte_offset_boundary(t, 0);
    lemma_byte_offset_boundary(t, 10);
    lemma_byte_offset_mono(t, 10, t.len() as int);
    lemma_encode_utf8_len(t);
    lemma_encode_utf8_len(a);
    lemma_encode_utf8_concat(a, b);
    assert(input.spec_bytes().subrange(0, 10) =~= encode_utf8(a));
    assert(a == "@namespace"@);
}

/// The byte offset of a character depends only on the characters before it.
proof fn lemma_byte_offset_prefix(s: Seq<char>, t: Seq<char>, i: int)
    requires
        0 <= i <= s.len(),
        i <= t.len(),
        s.subrange(0, i) == t.subrange(0, i),
    ensures
        byte_offset(s, i) == byte_offset(t, i),
    decreases i,
{
    if i > 0 {
        assert(s.subrange(0, i - 1) =~= s.subrange(0, i).subrange(0, i - 1));
        assert(t.subrange(0, i - 1) =~= t.subrange(0, i).subrange(0, i - 1));
        assert(s[i - 1] == s.subrange(0, i)[i - 1]);
        assert(t[i - 1] == t.subrange(0, i)[i - 1]);
        lemma_byte_offset_prefix(s, t, i - 1);
    }
}

/// Different characters of a text start at different byte offsets.
proof fn lemma_byte_offset_injective(s: Seq<char>, i: int, j: int)
    requires
        0 <= i <= s.len(),
        0 <= j <= s.len(),
        byte_offset(s, i) == byte_offset(s, j),
    ensures
        i == j,
{
    if i < j {
        lemma_byte_offset_mono(s, i, j);
    }
    if j < i {
        lemma_byte_offset_mono(s, j, i);
    }
}

/// A word of ASCII characters at character `k` of a text takes one byte per
/// character, and its bytes there are its encoding.
proof fn lemma_ascii_word_bytes(text: Seq<char>, k: int, w: Seq<char>)
    requires
        0 <= k,
        k + w.len() <= text.len(),
        text.subrange(k, k + w.len()) == w,
        vstd::utf8::is_ascii_chars(w),
    ensures
        byte_offset(text, k + w.len()) == byte_offset(text, k) + w.len(),
        encode_utf8(text).subrange(byte_offset(text, k) as int, byte_offset(text, k) + w.len() as int) == encode_utf8(w),
{
    let n = w.len() as int;
    let a = text.subrange(0, k);
    let c = text.subrange(k + n, text.len() as int);
    assert(text =~= a + w + c);
    assert(a + w + c =~= a + (w + c));
    lemma_encode_utf8_concat(a, w + c);
    lemma_encode_utf8_concat(w, c);
    lemma_encode_utf8_concat(a, w);
    vstd::utf8::is_ascii_chars_encode_utf8(w);
    lemma_encode_utf8_len(a);
    lemma_encode_utf8_len(a + w);
    assert(a.subrange(0, k) =~= a);
    lemma_byte_offset_prefix(text, a, k);
    assert((a + w).subrange(0, k + n) =~= text.subrange(0, k + n));
    assert((a + w).subrange(0, k + n) =~= a + w);
    lemma_byte_offset_prefix(text, a + w, k + n);
    let e = encode_utf8(text);
    assert(e == encode_utf8(a) + (encode_utf8(w) + encode_utf8(c)));
    assert(e.subrange(encode_utf8(a).len() as int, encode_utf8(a).len() + n) =~= encode_utf8(w));
}

/// A text that opens with a class selector whose name ends at character `k`
/// has that selector at bytes `0..byte_offset(k)`, which is not a bare `.`.
proof fn lemma_class_opening(input: &str, k: int)
    requires
        class_at(input@, 0, k),
    ensures
        is_str_range(input, 0, byte_offset(input@, k) as int),
        2 <= byte_offset(input@, k) <= input.spec_bytes().len(),
        input.spec_bytes().subrange(0, byte_offset(input@, k) as int) != ".".spec_bytes(),
{
    reveal_strlit(".");
    vstd::string::is_ascii_spec_bytes(".");
    let t = input@;
    lemma_byte_offset_boundary(t, 0);
    lemma_byte_offset_boundary(t, k);
    lemma_byte_offset_mono(t, 0, k);
    lemma_byte_offset_mono(t, k, t.len() as int);
    lemma_encode_utf8_len(t);
    assert(input.spec_bytes().subrange(0, byte_offset(t, k) as int).len() != ".".spec_bytes().len());
}

/// A text that opens with an id selector whose name ends at character `k`
/// has that selector at bytes `0..byte_offset(k)`, which is not a bare `#`.
proof fn lemma_id_opening(input: &str, k: int)
    requires
        id_at(input@, 0, k),
    ensures
        is_str_range(input, 0, byte_offset(input@, k) as int),
        2 <= byte_offset(input@, k) <= input.spec_bytes().len(),
        input.spec_bytes().subrange(0, byte_offset(input@, k) as int) != "#".spec_bytes(),
{
    reveal_strlit("#");
    vstd::string::is_ascii_spec_bytes("#");
    let t = input@;
    lemma_byte_offset_boundary(t, 0);
    lemma_byte_offset_boundary(t, k);
    lemma_byte_offset_mono(t, 0, k);
    lemma_byte_offset_mono(t, k, t.len() as int);
    lemma_encode_utf8_len(t);
    assert(input.spec_bytes().subrange(0, byte_offset(t, k) as int).len() != "#".spec_bytes().len());
}

/// The dependencies `dependencies` hold a local id with no explicit mode,
/// named by the text of `input` from its start up to character `k`.
pub open spec fn first_id_named<'s>(dependencies: Seq<Dependency<'s>>, input: &'s str, k: int) -> bool {
    exists|i: int|
        0 <= i < dependencies.len() && (#[trigger] dependencies[i] matches Dependency::LocalId {
            name,
            range,
            explicit,
        } && range == (Range { start: 0, end: byte_offset(input@, k) as u32 }) && name.spec_bytes()
            == input.spec_bytes().subrange(0, byte_offset(input@, k) as int) && !explicit)
}

/// The dependencies `dependencies` hold a local class with no explicit mode,
/// named by the text of `input` from its start up to character `k`.
pub open spec fn first_class_named<'s>(dependencies: Seq<Dependency<'s>>, input: &'s str, k: int) -> bool {
    exists|i: int|
        0 <= i < dependencies.len() && (#[trigger] dependencies[i] matches Dependency::LocalClass {
            name,
            range,
            explicit,
        } && range == (Range { start: 0, end: byte_offset(input@, k) as u32 }) && name.spec_bytes()
            == input.spec_bytes().subrange(0, byte_offset(input@, k) as int) && !explicit)
}

/// `@keyframes` is neither `@namespace` nor `@import`.
proof fn lemma_keyframes_word(x: Seq<u8>)
    requires
        bytes_eq_ignore_ascii_case(x, "@keyframes".spec_bytes()),
    ensures
        !bytes_eq_ignore_ascii_case(x, "@namespace".spec_bytes()),
        !bytes_eq_ignore_ascii_case(x, "@import".spec_bytes()),
{
    reveal_strlit("@keyframes");
    vstd::string::is_ascii_spec_bytes("@keyframes");
    reveal_strlit("@namespace");
    vstd::string::is_ascii_spec_bytes("@namespace");
    reveal_strlit("@import");
    vstd::string::is_ascii_spec_bytes("@import");
    assert(ascii_lower(x[1]) == 107u8);
}

/// The two `@`-rules that declare a dashed local name.
pub enum DashedIdentRule {
    Property,
    FontPaletteValues,
}

/// Collects the dependencies of a CSS module as the lexer reports its tokens.
pub struct LexDependencies<'s, D, W> {
    mode_data: Option<ModeData<'s>>,
    scope: Scope<'s>,
    block_nesting_level: u32,
    allow_import_at_rule: bool,
    balanced: BalancedStack,
    is_next_rule_prelude: bool,
    in_animation_property: Option<InProperty<AnimationReserved>>,
    in_list_style_property: Option<InProperty<ListStyleReserved>>,
    in_font_palette_property: Option<InProperty<FontPaletteReserved>>,
    handle_dependency: D,
    handle_warning: W,
    dependencies_before: Ghost<Seq<Dependency<'s>>>,
    warnings_before: Ghost<Seq<Warning<'s>>>,
    warnings_original: Ghost<Seq<Warning<'s>>>,
    stopped: Ghost<bool>,
    dependencies_mark: Ghost<Seq<Dependency<'s>>>,
    untouched: Ghost<bool>,
    initial_mode: Ghost<Mode>,
}

impl<'s, D: HandleDependency<'s>, W: HandleWarning<'s>> LexDependencies<'s, D, W> {
    pub closed spec fn handlers(&self) -> (D, W) {
        (self.handle_dependency, self.handle_warning)
    }

    /// Every dependency the dependency handler holds.
    pub closed spec fn dependencies(&self) -> Seq<Dependency<'s>> {
        self.handle_dependency.dependencies_handled()
    }

    /// Every warning the warning handler holds.
    pub closed spec fn warnings(&self) -> Seq<Warning<'s>> {
        self.handle_warning.warnings_handled()
    }

    /// The open brackets, functions and pseudo classes, innermost last.
    pub closed spec fn balanced_items(&self) -> Seq<BalancedItem> {
        self.balanced@
    }

    /// Where the lexer is in the structure of the style sheet.
    pub closed spec fn current_scope(&self) -> Scope<'s> {
        self.scope
    }

    /// The scoping state; `None` for plain CSS.
    pub closed spec fn scoping(&self) -> Option<ModeData<'s>> {
        self.mode_data
    }

    /// How deeply the current block is nested.
    pub closed spec fn nesting(&self) -> u32 {
        self.block_nesting_level
    }

    /// Whether an `@import` may still come.
    pub closed spec fn imports_allowed(&self) -> bool {
        self.allow_import_at_rule
    }

    /// Whether no `animation`, `list-style` or `font-palette` value is being read.
    pub closed spec fn no_open_property(&self) -> bool {
        &&& self.in_animation_property is None
        &&& self.in_list_style_property is None
        &&& self.in_font_palette_property is None
    }

    /// The range of the keyframes name waiting in the current property value, if any.
    pub closed spec fn pending_keyframes(&self) -> Option<Range> {
        match self.in_animation_property {
            Some(p) => if self.balanced@.len() == p.balanced_len {
                p.rename
            } else {
                None
            },
            None => None,
        }
    }

    /// The range of the counter style name waiting in the current property value, if any.
    pub closed spec fn pending_counter_style(&self) -> Option<Range> {
        match self.in_list_style_property {
            Some(p) => if self.balanced@.len() == p.balanced_len {
                p.rename
            } else {
                None
            },
            None => None,
        }
    }

    /// The range of the font palette name waiting in the current property value, if any.
    pub closed spec fn pending_font_palette(&self) -> Option<Range> {
        match self.in_font_palette_property {
            Some(p) => if self.balanced@.len() == p.balanced_len {
                p.rename
            } else {
                None
            },
            None => None,
        }
    }

    /// The selector of the current rule is a single local class whose name
    /// is text of `input`, and one more class fits in the list to compose.
    pub closed spec fn composes_ready(&self, input: &'s str) -> bool {
        &&& self.mode_data matches Some(m)
        &&& m.composes_local_classes.is_single matches SingleLocalClass::Single(range)
        &&& is_str_range(input, range.start as int, range.end as int)
        &&& name_list_view(m.composes_local_classes.local_classes).len() < MAX_LIST_LEN
    }

    /// Whether the value of an `animation` property is being read.
    pub closed spec fn reading_animation(&self) -> bool {
        self.in_animation_property is Some
    }

    /// Whether the next tokens are taken as the prelude of a rule.
    pub closed spec fn next_is_rule_prelude(&self) -> bool {
        self.is_next_rule_prelude
    }

    /// What the handlers held before lexing began, and whether the text is
    /// plain CSS (no scoping of names).
    pub closed spec fn origin(&self) -> (Seq<Dependency<'s>>, Seq<Warning<'s>>, bool) {
        (self.dependencies_before@, self.warnings_original@, self.mode_data is None)
    }

    /// `self` is `other`, whether or not a callback has since asked the lexer
    /// to stop or been handed a token.
    pub closed spec fn same_state(&self, other: &Self) -> bool {
        *self == (LexDependencies { stopped: self.stopped, untouched: self.untouched, ..*other })
    }

    /// The warnings held when the current token was handed over are all the
    /// warnings held.
    pub closed spec fn at_boundary(&self) -> bool {
        &&& self.warnings_before@ == self.handle_warning.warnings_handled()
        &&& self.dependencies_mark@ == self.handle_dependency.dependencies_handled()
    }

    /// No token has been handed over yet, lexing started in `mode`, and what
    /// comes first is taken as the prelude of a rule.
    pub closed spec fn starts_in(&self, mode: Mode) -> bool {
        &&& self.untouched@
        &&& self.initial_mode@ == mode
        &&& self.is_next_rule_prelude
    }

    /// The scoping state is the one lexing started with.
    pub closed spec fn fresh_state(&self) -> bool {
        self.initial_mode@ != Mode::Css ==> (self.mode_data matches Some(m) && m.current == self.initial_mode@
            && m.inside_mode_function == 0 && m.inside_mode_class == 0)
    }

    /// The origin, the warnings held when the current token was handed over,
    /// and whether the lexer was asked to stop.
    pub closed spec fn frame_of(&self) -> (
        Seq<Dependency<'s>>,
        Seq<Warning<'s>>,
        Seq<Warning<'s>>,
        bool,
        bool,
        (Seq<Dependency<'s>>, bool, Mode),
    ) {
        (
            self.dependencies_before@,
            self.warnings_before@,
            self.warnings_original@,
            self.mode_data is None,
            self.stopped@,
            (self.dependencies_mark@, self.untouched@, self.initial_mode@),
        )
    }

    /// The handlers still hold what they held before lexing began, and every
    /// dependency and warning handed to them since is well formed for the
    /// text `input`.
    pub closed spec fn reports_wf(&self, input: Seq<u8>) -> bool {
        let dependencies = self.handle_dependency.dependencies_handled();
        let warnings = self.handle_warning.warnings_handled();
        let dependencies_before = self.dependencies_before@;
        let warnings_before = self.warnings_before@;
        let warnings_original = self.warnings_original@;
        &&& dependencies_before.len() <= self.dependencies_mark@.len() <= dependencies.len()
        &&& forall|i: int|
            0 <= i < self.dependencies_mark@.len() ==> dependencies[i] == self.dependencies_mark@[i]
        &&& forall|i: int|
            0 <= i < dependencies_before.len() ==> self.dependencies_mark@[i] == dependencies_before[i]
        &&& forall|i: int|
            dependencies_before.len() <= i < dependencies.len() ==> dependency_wf(
                input,
                #[trigger] dependencies[i],
            )
        &&& self.mode_data is None ==> forall|i: int|
            dependencies_before.len() <= i < dependencies.len() ==> is_css_dependency(
                #[trigger] dependencies[i],
            )
        &&& warnings_original.len() <= warnings_before.len() <= warnings.len()
        &&& forall|i: int| 0 <= i < warnings_before.len() ==> warnings[i] == warnings_before[i]
        &&& forall|i: int|
            0 <= i < warnings_original.len() ==> warnings_before[i] == warnings_original[i]
        &&& forall|i: int|
            warnings_original.len() <= i < warnings.len() ==> warning_wf(input, #[trigger] warnings[i])
    }

    pub closed spec fn state_wf(&self, input: Seq<u8>) -> bool {
        &&& self.mode_data matches Some(m) ==> {
            &&& m.wf()
            &&& (m.pure_global matches Some(p) ==> p <= input.len())
            &&& (m.resulting_global matches Some(p) ==> p <= input.len())
        }
        &&& self.scope matches Scope::InAtImport(d) ==> import_data_wf(input, d)
        &&& forall|i: int|
            0 <= i < self.balanced@.len() ==> range_within(input, (#[trigger] self.balanced@[i]).range)
    }

    pub fn new(handle_dependency: D, handle_warning: W, mode: Mode) -> (r: Self)
        ensures
            r.handlers() == (handle_dependency, handle_warning),
            r.origin() == (
                handle_dependency.dependencies_handled(),
                handle_warning.warnings_handled(),
                mode == Mode::Css,
            ),
            forall|input: Seq<u8>| #[trigger] r.reports_wf(input) && r.state_wf(input),
            r.at_boundary(),
            r.starts_in(mode),
            r.fresh_state(),
    {
        LexDependencies {
            mode_data: if mode == Mode::Css {
                None
            } else {
                Some(ModeData::new(mode))
            },
            scope: Scope::TopLevel,
            block_nesting_level: 0,
            allow_import_at_rule: true,
            balanced: BalancedStack::new(),
            is_next_rule_prelude: true,
            in_animation_property: None,
            in_list_style_property: None,
            in_font_palette_property: None,
            dependencies_before: Ghost(handle_dependency.dependencies_handled()),
            warnings_before: Ghost(handle_warning.warnings_handled()),
            warnings_original: Ghost(handle_warning.warnings_handled()),
            stopped: Ghost(false),
            dependencies_mark: Ghost(handle_dependency.dependencies_handled()),
            untouched: Ghost(true),
            initial_mode: Ghost(mode),
            handle_dependency,
            handle_warning,
        }
    }

    /// Pushes `item` on the balanced stack.
    fn bal_push(&mut self, Ghost(input): Ghost<Seq<u8>>, item: BalancedItem)
        requires
            old(self).reports_wf(input),
            old(self).state_wf(input),
            range_within(input, item.range),
        ensures
            old(self).balanced@.len() < MAX_LIST_LEN ==> final(self).balanced@ == old(
                self,
            ).balanced@.push(item),
            old(self).balanced@.len() >= MAX_LIST_LEN ==> final(self).balanced@ == old(
                self,
            ).balanced@,
            final(self).mode_data == match old(self).mode_data {
                Some(m) => Some(mode_data_after_push(m, item.kind)),
                None => None,
            },
            final(self).mode_data is None <==> old(self).mode_data is None,
            final(self).reports_wf(input),
            final(self).state_wf(input),
            *final(self) == (LexDependencies {
                balanced: final(self).balanced,
                mode_data: final(self).mode_data,
                ..*old(self)
            }),
    {
        self.balanced.push(item, &mut self.mode_data);
        proof {
            if old(self).balanced@.len() < MAX_LIST_LEN {
                assert forall|i: int| 0 <= i < self.balanced@.len() implies range_within(
                    input,
                    (#[trigger] self.balanced@[i]).range,
                ) by {
                    if i < old(self).balanced@.len() {
                        assert(self.balanced@[i] == old(self).balanced@[i]);
                    }
                }
            }
        }
    }

    proof fn lemma_prefix_ranges(input: Seq<u8>, items: Seq<BalancedItem>, prefix: Seq<BalancedItem>)
        requires
            forall|i: int| 0 <= i < items.len() ==> range_within(input, (#[trigger] items[i]).range),
            prefix.len() <= items.len(),
            prefix == items.subrange(0, prefix.len() as int),
        ensures
            forall|i: int| 0 <= i < prefix.len() ==> range_within(input, (#[trigger] prefix[i]).range),
    {
        assert forall|i: int| 0 <= i < prefix.len() implies range_within(
            input,
            (#[trigger] prefix[i]).range,
        ) by {
            assert(prefix[i] == items[i]);
        }
    }

    /// Pops the balanced stack, updating the scoping.
    fn bal_pop(&mut self, Ghost(input): Ghost<Seq<u8>>) -> (r: Option<BalancedItem>)
        requires
            old(self).reports_wf(input),
            old(self).state_wf(input),
        ensures
            old(self).balanced@.len() == 0 ==> final(self).mode_data == old(self).mode_data,
            final(self).mode_data is None <==> old(self).mode_data is None,
            final(self).reports_wf(input),
            final(self).state_wf(input),
            r matches Some(item) ==> range_within(input, item.range),
            old(self).balanced@.len() == 0 ==> r is None && final(self).balanced@ == old(
                self,
            ).balanced@,
            old(self).balanced@.len() > 0 ==> r == Some(old(self).balanced@.last())
                && final(self).balanced@ == old(self).balanced@.drop_last(),
            *final(self) == (LexDependencies {
                balanced: final(self).balanced,
                mode_data: final(self).mode_data,
                ..*old(self)
            }),
    {
        let r = self.balanced.pop(&mut self.mode_data);
        proof {
            if old(self).balanced@.len() > 0 {
                assert(old(self).balanced@[old(self).balanced@.len() - 1] == old(self).balanced@.last());
                Self::lemma_prefix_ranges(input, old(self).balanced@, self.balanced@);
                if let Some(m) = old(self).mode_data {
                    lemma_topmost_mode_not_css(self.balanced@, m.default);
                }
            }
        }
        r
    }

    /// Pops the balanced stack, leaving the scoping as it is.
    fn bal_pop_without_mode_data(&mut self, Ghost(input): Ghost<Seq<u8>>) -> (r: Option<BalancedItem>)
        requires
            old(self).reports_wf(input),
            old(self).state_wf(input),
        ensures
            final(self).mode_data is None <==> old(self).mode_data is None,
            final(self).reports_wf(input),
            final(self).state_wf(input),
            old(self).balanced@.len() == 0 ==> r is None && final(self).balanced@ == old(
                self,
            ).balanced@,
            old(self).balanced@.len() > 0 ==> r == Some(old(self).balanced@.last())
                && final(self).balanced@ == old(self).balanced@.drop_last(),
            *final(self) == (LexDependencies { balanced: final(self).balanced, ..*old(self) }),
    {
        let r = self.balanced.pop_without_moda_data();
        proof {
            if old(self).balanced@.len() > 0 {
                Self::lemma_prefix_ranges(input, old(self).balanced@, self.balanced@);
            }
        }
        r
    }

    /// Pops the `:local`/`:global` pseudo classes on top of the balanced stack.
    fn bal_pop_mode_pseudo_class(&mut self, Ghost(input): Ghost<Seq<u8>>)
        requires
            old(self).reports_wf(input),
            old(self).state_wf(input),
        ensures
            final(self).balanced@.len() <= old(self).balanced@.len(),
            old(self).mode_data is None ==> *final(self) == *old(self),
            old(self).mode_data matches Some(m) ==> {
                &&& final(self).balanced@ == old(self).balanced@.subrange(
                    0,
                    final(self).balanced@.len() as int,
                )
                &&& forall|i: int|
                    final(self).balanced@.len() <= i < old(self).balanced@.len()
                        ==> (#[trigger] old(self).balanced@[i]).kind.spec_is_mode_class()
                &&& final(self).balanced@.len() > 0 ==> !final(self).balanced@.last().kind.spec_is_mode_class()
                &&& final(self).mode_data == Some(
                    ModeData {
                        current: spec_topmost_mode(final(self).balanced@, m.default),
                        inside_mode_class: dec_by(
                            m.inside_mode_class,
                            old(self).balanced@.len() - final(self).balanced@.len(),
                        ),
                        ..m
                    },
                )
            },
            final(self).mode_data is None <==> old(self).mode_data is None,
            final(self).reports_wf(input),
            final(self).state_wf(input),
            *final(self) == (LexDependencies {
                balanced: final(self).balanced,
                mode_data: final(self).mode_data,
                ..*old(self)
            }),
    {
        if let Some(mode_data) = &mut self.mode_data {
            self.balanced.pop_mode_pseudo_class(mode_data);
            proof {
                Self::lemma_prefix_ranges(input, old(self).balanced@, self.balanced@);
                lemma_topmost_mode_not_css(self.balanced@, mode_data.default);
            }
        }
    }

    /// Sets the mode of property values from the balanced stack.
    fn bal_update_property_mode(&mut self, Ghost(input): Ghost<Seq<u8>>)
        requires
            old(self).reports_wf(input),
            old(self).state_wf(input),
        ensures
            final(self).mode_data is None <==> old(self).mode_data is None,
            final(self).reports_wf(input),
            final(self).state_wf(input),
            final(self).mode_data == match old(self).mode_data {
                Some(m) => Some(
                    ModeData { property: spec_topmost_mode(old(self).balanced@, m.default), ..m },
                ),
                None => None,
            },
            *final(self) == (LexDependencies { mode_data: final(self).mode_data, ..*old(self) }),
    {
        if let Some(mode_data) = &mut self.mode_data {
            self.balanced.update_property_mode(mode_data);
            proof {
                lemma_topmost_mode_not_css(self.balanced@, mode_data.default);
            }
        }
    }

    /// Hands `dependency` to the dependency handler.
    fn report(&mut self, Ghost(input): Ghost<Seq<u8>>, dependency: Dependency<'s>)
        requires
            old(self).reports_wf(input),
            dependency_wf(input, dependency),
            old(self).mode_data is None ==> is_css_dependency(dependency),
        ensures
            final(self).reports_wf(input),
            final(self).handle_dependency.dependencies_handled() == old(
                self,
            ).handle_dependency.dependencies_handled().push(dependency),
            *final(self) == (LexDependencies {
                handle_dependency: final(self).handle_dependency,
                ..*old(self)
            }),
    {
        self.handle_dependency.handle_dependency(dependency);
    }

    /// Hands `warning` to the warning handler.
    fn warn(&mut self, Ghost(input): Ghost<Seq<u8>>, warning: Warning<'s>)
        requires
            old(self).reports_wf(input),
            warning_wf(input, warning),
        ensures
            final(self).reports_wf(input),
            final(self).handle_warning.warnings_handled() == old(
                self,
            ).handle_warning.warnings_handled().push(warning),
            *final(self) == (LexDependencies { handle_warning: final(self).handle_warning, ..*old(self) }),
    {
        self.handle_warning.handle_warning(warning);
    }
}


impl<'s> ComposesLocalClasses<'s> {
    /// The local classes to compose into, when the selector is a single local class.
    pub fn get_valid_local_classes(&mut self, lexer: &Lexer<'s>) -> (r: Option<NameList<'s>>)
        requires
            lexer.wf(),
        ensures
            final(self).local_classes == old(self).local_classes,
            !(old(self).is_single is Single) ==> r is None && final(self).is_single is Initial,
            old(self).is_single matches SingleLocalClass::Single(range) ==> {
                &&& final(self).is_single == old(self).is_single
                &&& r is Some <==> (is_str_range(lexer.input(), range.start as int, range.end as int)
                    && name_list_view(old(self).local_classes).len() < MAX_LIST_LEN)
                &&& r matches Some(l) ==> name_list_view(l) == name_list_view(
                    old(self).local_classes,
                ).push(lexer.text_at(range.start as int, range.end as int))
            },
    {
        if let SingleLocalClass::Single(range) = self.is_single {
            let mut local_classes = self.local_classes.duplicate();
            if local_classes.len() >= MAX_LIST_LEN {
                return None;
            }
            let name = lexer.slice(range.start, range.end)?;
            proof {
                lexer.lemma_slice_view(range.start, range.end, name);
            }
            local_classes.push(name);
            Some(local_classes)
        } else {
            self.reset_to_initial();
            None
        }
    }

    /// A `,` in the selector: keeps the single class found so far, if any.
    pub fn find_comma(&mut self, lexer: &Lexer<'s>) -> (r: Option<()>)
        requires
            lexer.wf(),
        ensures
            !(old(self).is_single is Single) ==> r is Some && *final(self) == (ComposesLocalClasses {
                is_single: SingleLocalClass::Invalid,
                ..*old(self)
            }),
            old(self).is_single matches SingleLocalClass::Single(range) ==> {
                &&& r is Some <==> (is_str_range(lexer.input(), range.start as int, range.end as int)
                    && name_list_view(old(self).local_classes).len() < MAX_LIST_LEN)
                &&& r is Some ==> final(self).is_single is Initial && name_list_view(
                    final(self).local_classes,
                ) == name_list_view(old(self).local_classes).push(lexer.text_at(range.start as int, range.end as int))
            },
    {
        if let SingleLocalClass::Single(range) = self.is_single {
            if self.local_classes.len() >= MAX_LIST_LEN {
                return None;
            }
            let name = lexer.slice(range.start, range.end)?;
            proof {
                lexer.lemma_slice_view(range.start, range.end, name);
            }
            self.local_classes.push(name);
            self.is_single = SingleLocalClass::Initial
        } else {
            self.is_single = SingleLocalClass::Invalid;
        }
        Some(())
    }
}

impl<'s, D: HandleDependency<'s>, W: HandleWarning<'s>> LexDependencies<'s, D, W> {
    pub closed spec fn inv_for(&self, input: &'s str) -> bool {
        self.reports_wf(input.spec_bytes()) && self.state_wf(input.spec_bytes())
    }

    /// Whether what follows (after white space and comments) is a nested rule
    /// rather than a declaration.
    fn is_next_nested_syntax(&self, lexer: &mut Lexer<'s>) -> (r: Option<bool>)
        requires
            old(lexer).wf(),
        ensures
            r matches Some(b) ==> (final(lexer).cur_char() matches Some(c) && !spec_is_white_space(c) && (c == '}' ==> !b) && (c != '}' ==> b == !spec_start_ident_sequence(c, final(lexer).peek_char().unwrap(), final(lexer).peek2_char().unwrap()))),
            r is None ==> final(lexer).cur_char() is None || final(lexer).peek_char() is None || final(lexer).peek2_char() is None,
            old(lexer).cur_is('}') ==> r == Some(false) && *final(lexer) == *old(lexer),
            final(lexer).advanced_from(*old(lexer)),
    {
        lexer.consume_white_space_and_comments()?;
        let c = lexer.cur()?;
        if c == C_RIGHT_CURLY {
            return Some(false);
        }
        Some(!start_ident_sequence(c, lexer.peek()?, lexer.peek2()?))
    }

    /// The media query list of an `@import`, between `start` and `end`, when it
    /// holds more than white space and comments.
    fn get_media(&self, lexer: &Lexer<'s>, start: Pos, end: Pos) -> (r: Option<&'s str>)
        requires
            lexer.wf(),
        ensures
            r is Some ==> is_str_range(lexer.input(), start as int, end as int),
            is_str_range(lexer.input(), start as int, end as int) && lexer.text_at(start as int, end as int).len() > 0 && !spec_is_white_space(lexer.text_at(start as int, end as int)[0]) && lexer.text_at(start as int, end as int)[0] != '/' ==> r is Some,
            r matches Some(m) ==> is_text_at(
                lexer.input().spec_bytes(),
                m,
                start as int,
                end as int,
            ),
    {
        let media = lexer.slice(start, end)?;
        proof {
            lexer.lemma_slice_view(start, end, media);
        }
        let mut media_lexer = Lexer::new(media);
        let _ = media_lexer.consume();
        assert(media@.len() > 0 ==> media_lexer.cur_char() == Some(media@[0]));
        media_lexer.consume_white_space_and_comments()?;
        Some(media)
    }

    fn enter_animation_property(&mut self)
        ensures
            *final(self) == (LexDependencies {
                in_animation_property: final(self).in_animation_property,
                ..*old(self)
            }),
            final(self).in_animation_property is Some,
    {
        self.in_animation_property = Some(
            InProperty::new(AnimationReserved::new(), self.balanced.len()),
        );
    }

    fn exit_animation_property(&mut self)
        ensures
            *final(self) == (LexDependencies { in_animation_property: None, ..*old(self) }),
    {
        self.in_animation_property = None;
    }

    fn enter_list_style_property(&mut self)
        ensures
            *final(self) == (LexDependencies {
                in_list_style_property: final(self).in_list_style_property,
                ..*old(self)
            }),
            final(self).in_list_style_property is Some,
    {
        self.in_list_style_property = Some(InProperty::new(ListStyleReserved, self.balanced.len()));
    }

    fn exit_list_style_property(&mut self)
        ensures
            *final(self) == (LexDependencies { in_list_style_property: None, ..*old(self) }),
    {
        self.in_list_style_property = None;
    }

    fn enter_font_palette_property(&mut self)
        ensures
            *final(self) == (LexDependencies {
                in_font_palette_property: final(self).in_font_palette_property,
                ..*old(self)
            }),
            final(self).in_font_palette_property is Some,
    {
        self.in_font_palette_property = Some(
            InProperty::new(FontPaletteReserved, self.balanced.len()),
        );
    }

    fn exit_font_palette_property(&mut self)
        ensures
            *final(self) == (LexDependencies { in_font_palette_property: None, ..*old(self) }),
    {
        self.in_font_palette_property = None;
    }

    /// Skips white space and comments; whether there was white space.
    fn has_after_white_space(&self, lexer: &mut Lexer<'s>) -> (r: Option<bool>)
        requires
            old(lexer).wf(),
        ensures
            r is None ==> final(lexer).cur_char() is None || final(lexer).peek_char() is None,
            r is Some ==> (final(lexer).cur_char() matches Some(c) && !spec_is_white_space(c)),
            old(lexer).cur_char() matches Some(c) && spec_is_white_space(c) ==> r != Some(false),
            old(lexer).cur_char() matches Some(c) && !spec_is_white_space(c) && c != '/' ==> r == Some(false) && *final(lexer) == *old(lexer),
            final(lexer).advanced_from(*old(lexer)),
    {
        let mut has_white_space = false;
        loop
            invariant_except_break
                lexer.advanced_from(*old(lexer)),
                old(lexer).cur_char() matches Some(c) && spec_is_white_space(c) ==> (has_white_space
                    || *lexer == *old(lexer)),
                old(lexer).cur_char() matches Some(c) && !spec_is_white_space(c) && c != '/' ==> (
                *lexer == *old(lexer) && !has_white_space),
            ensures
                lexer.advanced_from(*old(lexer)),
                lexer.cur_char() matches Some(c) && !spec_is_white_space(c),
                old(lexer).cur_char() matches Some(c) && spec_is_white_space(c) ==> has_white_space,
                old(lexer).cur_char() matches Some(c) && !spec_is_white_space(c) && c != '/' ==> (
                *lexer == *old(lexer) && !has_white_space),
            decreases lexer.text().len() + 3 - lexer.consumed(),
        {
            lexer.consume_comments()?;
            if is_white_space(lexer.cur()?) {
                has_white_space = true;
                lexer.consume_space()?;
            } else {
                break ;
            }
        }
        Some(has_white_space)
    }

    /// Moves past `expected` when it is under the cursor; else warns with `message`.
    fn eat(&mut self, lexer: &mut Lexer<'s>, expected: char, message: &'s str) -> (r: Option<bool>)
        requires
            old(self).inv_for(old(lexer).input()),
            old(lexer).wf(),
        ensures
            *final(self) == (LexDependencies { handle_warning: final(self).handle_warning, ..*old(self) }),
            old(lexer).cur_char() is None ==> r is None && *final(self) == *old(self),
            old(lexer).cur_is(expected) ==> r == Some(true) && *final(self) == *old(self),
            old(lexer).cur_char() matches Some(c) && c != expected ==> r == Some(false) && *final(lexer) == *old(lexer) && final(self).handle_warning.warnings_handled() == old(self).handle_warning.warnings_handled().push(Warning { kind: WarningKind::Unexpected { message }, range: Range { start: old(lexer).cur_position().unwrap(), end: old(lexer).peek_position().unwrap() } }),
            final(self).inv_for(final(lexer).input()),
            final(self).frame_of() == old(self).frame_of(),
            final(lexer).advanced_from(*old(lexer)),
            r == Some(true) ==> final(lexer).progressed_from(*old(lexer)),
    {
        let ghost input = lexer.input().spec_bytes();
        if lexer.cur()? != expected {
            let start = lexer.cur_pos()?;
            let end = lexer.peek_pos()?;
            proof {
                lexer.lemma_positions();
            }
            self.warn(
                Ghost(input),
                Warning { kind: WarningKind::Unexpected { message }, range: Range::new(start, end) },
            );
            return Some(false);
        }
        let _ = lexer.consume();
        Some(true)
    }

    /// Moves past the property name of an ICSS declaration.
    fn consume_icss_export_prop(&self, lexer: &mut Lexer<'s>) -> (r: Option<()>)
        requires
            old(lexer).wf(),
        ensures
            r is Some ==> (final(lexer).cur_char() matches Some(c) && (c == ':' || c == '}' || c == ';' || (c == '/' && final(lexer).peek_char() == Some('*')))),
            r is None ==> final(lexer).cur_char() is None || final(lexer).peek_char() is None,
            final(lexer).advanced_from(*old(lexer)),
    {
        loop
            invariant_except_break
                lexer.advanced_from(*old(lexer)),
            ensures
                lexer.advanced_from(*old(lexer)),
                lexer.cur_char() matches Some(c) && (c == ':' || c == '}' || c == ';' || (c == '/'
                    && lexer.peek_char() == Some('*'))),
            decreases lexer.text().len() + 3 - lexer.consumed(),
        {
            let c = lexer.cur()?;
            if c == C_COLON || c == C_RIGHT_CURLY || c == C_SEMICOLON {
                break ;
            }
            if c == C_SOLIDUS && lexer.peek()? == C_ASTERISK {
                break ;
            }
            let _ = lexer.consume();
        }
        Some(())
    }

    /// Moves past the value of an ICSS declaration.
    fn consume_icss_export_value(&self, lexer: &mut Lexer<'s>) -> (r: Option<()>)
        requires
            old(lexer).wf(),
        ensures
            r is Some ==> (final(lexer).cur_char() matches Some(c) && (c == '}' || c == ';')),
            r is None ==> final(lexer).cur_char() is None,
            final(lexer).advanced_from(*old(lexer)),
    {
        loop
            invariant_except_break
                lexer.advanced_from(*old(lexer)),
            ensures
                lexer.advanced_from(*old(lexer)),
                lexer.cur_char() matches Some(c) && (c == '}' || c == ';'),
            decreases lexer.text().len() + 3 - lexer.consumed(),
        {
            let c = lexer.cur()?;
            if c == C_RIGHT_CURLY || c == C_SEMICOLON {
                break ;
            }
            let _ = lexer.consume();
        }
        Some(())
    }

    /// The text at `start..end` without its trailing white space.
    fn trimmed_slice(&self, lexer: &Lexer<'s>, start: Pos, end: Pos) -> (r: Option<&'s str>)
        requires
            lexer.wf(),
        ensures
            r is Some <==> is_str_range(lexer.input(), start as int, end as int),
            r matches Some(t) ==> t.spec_bytes() == lexer.input().spec_bytes().subrange(start as int, start + t.spec_bytes().len()) && start + t.spec_bytes().len() <= end && (forall|j: int| start + t.spec_bytes().len() <= j < end ==> is_white_space_byte(#[trigger] lexer.input().spec_bytes()[j])) && (t.spec_bytes().len() > 0 ==> !is_white_space_byte(lexer.input().spec_bytes()[start + t.spec_bytes().len() - 1])),
            r matches Some(t) ==> is_text_in(lexer.input().spec_bytes(), t),
    {
        let s = lexer.slice(start, end)?;
        let t = trim_end_white_space(s);
        proof {
            let n = t.spec_bytes().len() as int;
            assert(t.spec_bytes() =~= lexer.input().spec_bytes().subrange(start as int, start + n));
            assert forall|j: int| start + n <= j < end implies is_white_space_byte(
                #[trigger] lexer.input().spec_bytes()[j],
            ) by {
                assert(s.spec_bytes()[j - start] == lexer.input().spec_bytes()[j]);
            }
            if n > 0 {
                assert(s.spec_bytes()[n - 1] == lexer.input().spec_bytes()[start + n - 1]);
            }
            let k = choose|k: int|
                0 <= k <= s.spec_bytes().len() && t.spec_bytes() == s.spec_bytes().subrange(0, k);
            assert(t.spec_bytes() =~= lexer.input().spec_bytes().subrange(
                start as int,
                start + k,
            ));
            assert(is_text_at(lexer.input().spec_bytes(), t, start as int, start + k));
        }
        Some(t)
    }

    /// Lexes the declarations of an ICSS block (`{ prop: value; ... }`), for
    /// `:import(...)` when `import` and `:export` otherwise.
    fn lex_icss_block(&mut self, lexer: &mut Lexer<'s>, import: bool) -> (r: Option<()>)
        requires
            old(self).mode_data is Some,
            old(self).inv_for(old(lexer).input()),
            old(lexer).wf(),
        ensures
            import ==> extends_with(old(self).dependencies(), final(self).dependencies(), |d: Dependency<'s>| d is ICSSImportValue),
            !import ==> extends_with(old(self).dependencies(), final(self).dependencies(), |d: Dependency<'s>| d is ICSSExportValue),
            final(self).balanced_items() == old(self).balanced_items(),
            final(self).current_scope() == old(self).current_scope(),
            final(self).scoping() == old(self).scoping(),
            final(self).inv_for(final(lexer).input()),
            final(self).frame_of() == old(self).frame_of(),
            final(lexer).advanced_from(*old(lexer)),
    {
        proof {
            lemma_extends_refl(old(self).dependencies(), |d: Dependency<'s>| d is ICSSImportValue);
            lemma_extends_refl(old(self).dependencies(), |d: Dependency<'s>| d is ICSSExportValue);
        }
        let ghost input = lexer.input().spec_bytes();
        lexer.consume_white_space_and_comments()?;
        let opened = if import {
            self.eat(lexer, C_LEFT_CURLY, "Expected '{' during parsing of ':import()'")?
        } else {
            self.eat(lexer, C_LEFT_CURLY, "Expected '{' during parsing of ':export'")?
        };
        if !opened {
            return Some(());
        }
        lexer.consume_white_space_and_comments()?;
        while lexer.cur()? != C_RIGHT_CURLY
            invariant
                self.inv_for(lexer.input()),
                self.frame_of() == old(self).frame_of(),
                self.mode_data is Some,
                lexer.advanced_from(*old(lexer)),
                input == lexer.input().spec_bytes(),
                import ==> extends_with(old(self).dependencies(), self.dependencies(), |d: Dependency<'s>| d is ICSSImportValue),
                !import ==> extends_with(old(self).dependencies(), self.dependencies(), |d: Dependency<'s>| d is ICSSExportValue),
                self.balanced_items() == old(self).balanced_items(),
                self.current_scope() == old(self).current_scope(),
                self.scoping() == old(self).scoping(),
            decreases lexer.text().len() + 3 - lexer.consumed(),
        {
            let ghost before = *lexer;
            lexer.consume_white_space_and_comments()?;
            let prop_start = lexer.cur_pos()?;
            self.consume_icss_export_prop(lexer)?;
            let prop_end = lexer.cur_pos()?;
            lexer.consume_white_space_and_comments()?;
            let colon = if import {
                self.eat(lexer, C_COLON, "Expected ':' during parsing of ':import'")?
            } else {
                self.eat(lexer, C_COLON, "Expected ':' during parsing of ':export'")?
            };
            if !colon {
                return Some(());
            }
            lexer.consume_white_space_and_comments()?;
            let value_start = lexer.cur_pos()?;
            self.consume_icss_export_value(lexer)?;
            let value_end = lexer.cur_pos()?;
            if lexer.cur()? == C_SEMICOLON {
                let _ = lexer.consume();
                lexer.consume_white_space_and_comments()?;
            }
            let prop = self.trimmed_slice(lexer, prop_start, prop_end)?;
            let value = self.trimmed_slice(lexer, value_start, value_end)?;
            if import {
                let ghost before = self.dependencies();
                self.report(Ghost(input), Dependency::ICSSImportValue { prop, value });
                proof {
                    lemma_extends_push(old(self).dependencies(), before, Dependency::ICSSImportValue { prop, value }, |d: Dependency<'s>| d is ICSSImportValue);
                }
            } else {
                let ghost before = self.dependencies();
                self.report(Ghost(input), Dependency::ICSSExportValue { prop, value });
                proof {
                    lemma_extends_push(old(self).dependencies(), before, Dependency::ICSSExportValue { prop, value }, |d: Dependency<'s>| d is ICSSExportValue);
                }
            }
        }
        let _ = lexer.consume();
        Some(())
    }

    /// Lexes `:import("path") { ... }` after its `:import(`.
    fn lex_icss_import(&mut self, lexer: &mut Lexer<'s>) -> (r: Option<()>)
        requires
            old(self).mode_data is Some,
            old(self).inv_for(old(lexer).input()),
            old(lexer).wf(),
        ensures
            final(lexer).cur_char() is None || final(lexer).peek_char() is None || final(self).dependencies().len() > old(self).dependencies().len(),
            extends_with(old(self).dependencies(), final(self).dependencies(), |d: Dependency<'s>| d is ICSSImportFrom || d is ICSSImportValue),
            final(self).dependencies().len() > old(self).dependencies().len() ==> (final(self).dependencies()[old(self).dependencies().len() as int] matches Dependency::ICSSImportFrom { path } && is_text_in(old(lexer).input().spec_bytes(), path)),
            r is Some ==> final(self).dependencies().len() > old(self).dependencies().len(),
            final(self).balanced_items() == old(self).balanced_items(),
            final(self).current_scope() == old(self).current_scope(),
            final(self).scoping() == old(self).scoping(),
            final(self).inv_for(final(lexer).input()),
            final(self).frame_of() == old(self).frame_of(),
            final(lexer).advanced_from(*old(lexer)),
    {
        proof {
            lemma_extends_refl(old(self).dependencies(), |d: Dependency<'s>| d is ICSSImportFrom || d is ICSSImportValue);
        }
        let ghost input = lexer.input().spec_bytes();
        lexer.consume_white_space_and_comments()?;
        let start = lexer.cur_pos()?;
        let ghost at_start = *lexer;
        loop
            invariant
                lexer.advanced_from(*old(lexer)),
                self.inv_for(lexer.input()),
                self.frame_of() == old(self).frame_of(),
                self.mode_data is Some,
                *self == *old(self),
                lexer.advanced_from(at_start),
                extends_with(old(self).dependencies(), self.dependencies(), |d: Dependency<'s>| d is ICSSImportFrom || d is ICSSImportValue),
                start <= lexer.total(),
            decreases lexer.text().len() + 3 - lexer.consumed(),
        {
            let c = lexer.cur()?;
            if c == C_RIGHT_PARENTHESIS {
                break ;
            }
            let _ = lexer.consume();
        }
        let end = lexer.cur_pos()?;
        proof {
            if at_start.cur_char() is Some && lexer.cur_char() is Some {
                lexer.lemma_cur_range(at_start);
            }
        }
        let path = lexer.slice(start, end)?;
        assert(is_text_at(input, path, start as int, end as int));
        let ghost before = self.dependencies();
        self.report(Ghost(input), Dependency::ICSSImportFrom { path });
        let _ = lexer.consume();
        let ghost after_from = self.dependencies();
        let r = self.lex_icss_block(lexer, true);
        proof {
            let p = |d: Dependency<'s>| d is ICSSImportFrom || d is ICSSImportValue;
            assert(after_from == before.push(Dependency::ICSSImportFrom { path }));
            assert(self.dependencies().subrange(0, after_from.len() as int) == after_from);
            assert(self.dependencies()[before.len() as int] == after_from[before.len() as int]);
            assert(self.dependencies().subrange(0, before.len() as int) =~= before);
            assert forall|i: int| before.len() <= i < self.dependencies().len() implies #[trigger] p(self.dependencies()[i]) by {
                if i < after_from.len() {
                    assert(self.dependencies()[i] == after_from[i]);
                } else {
                    assert((|d: Dependency<'s>| d is ICSSImportValue)(self.dependencies()[i]));
                }
            }
        }
        r
    }

    /// Lexes `:export { ... }` after its `:export`.
    fn lex_icss_export(&mut self, lexer: &mut Lexer<'s>) -> (r: Option<()>)
        requires
            old(self).mode_data is Some,
            old(self).inv_for(old(lexer).input()),
            old(lexer).wf(),
        ensures
            extends_with(old(self).dependencies(), final(self).dependencies(), |d: Dependency<'s>| d is ICSSExportValue),
            final(self).balanced_items() == old(self).balanced_items(),
            final(self).current_scope() == old(self).current_scope(),
            final(self).scoping() == old(self).scoping(),
            final(self).inv_for(final(lexer).input()),
            final(self).frame_of() == old(self).frame_of(),
            final(lexer).advanced_from(*old(lexer)),
    {
        self.lex_icss_block(lexer, false)
    }
}


impl<'s, D: HandleDependency<'s>, W: HandleWarning<'s>> LexDependencies<'s, D, W> {
    /// Lexes the custom property name of `var(`, with an optional `from` path.
    fn lex_local_var(&mut self, lexer: &mut Lexer<'s>) -> (r: Option<()>)
        requires
            old(self).mode_data is Some,
            old(self).inv_for(old(lexer).input()),
            old(lexer).wf(),
        ensures
            final(self).dependencies().len() > old(self).dependencies().len() ==> (final(self).dependencies().last() matches Dependency::LocalVar { range, from, .. } ==> forall|i: int, k: int| #![trigger white_space_up_to(old(lexer).text(), i, k)] white_space_up_to(old(lexer).text(), i, k) && k + 4 <= old(lexer).text().len() && old(lexer).text().subrange(k, k + 4) == "from"@ && range.end == byte_offset(old(lexer).text(), i) ==> from is Some),
            extends_with(old(self).dependencies(), final(self).dependencies(), |d: Dependency<'s>| d is LocalVar || d is Url),
            final(self).inv_for(final(lexer).input()),
            final(self).frame_of() == old(self).frame_of(),
            final(lexer).advanced_from(*old(lexer)),
    {
        proof {
            lemma_extends_refl(old(self).dependencies(), |d: Dependency<'s>| d is LocalVar || d is Url);
        }
        let ghost input = lexer.input().spec_bytes();
        lexer.consume_white_space_and_comments()?;
        let start = lexer.cur_pos()?;
        let dashed = if lexer.cur()? != C_HYPHEN_MINUS {
            false
        } else {
            lexer.peek()? == C_HYPHEN_MINUS
        };
        if !dashed {
            let end = lexer.peek2_pos()?;
            proof {
                lexer.lemma_positions();
            }
            self.warn(
                Ghost(input),
                Warning {
                    kind: WarningKind::Unexpected {
                        message: "Expected starts with '--' during parsing of 'var()'",
                    },
                    range: Range::new(start, end),
                },
            );
            return Some(());
        }
        proof {
            lexer.lemma_dashes();
        }
        lexer.consume_ident_sequence()?;
        let name_start = start + 2;
        let end = lexer.cur_pos()?;
        let ghost after_name = *lexer;
        lexer.consume_white_space_and_comments()?;
        let from_start = lexer.cur_pos()?;
        let ghost at_from = *lexer;
        let is_from = match from_start.checked_add(4) {
            Some(from_end) => match lexer.slice(from_start, from_end) {
                Some(word) => str_eq(word, "from"),
                None => false,
            },
            None => false,
        };
        proof {
            let t = old(lexer).text();
            assert forall|i: int, k: int| #[trigger] white_space_up_to(t, i, k) && k + 4 <= t.len() && t.subrange(k, k + 4) == "from"@ && end == byte_offset(t, i) implies is_from by {
                assert(after_name.text() == t);
                assert(after_name.cur_char() is Some);
                after_name.lemma_cur_offset();
                lemma_byte_offset_injective(t, i, after_name.index());
                assert(at_from.index() == k);
                at_from.lemma_cur_offset();
                reveal_strlit("from");
                vstd::string::is_ascii_spec_bytes("from");
                assert(vstd::utf8::is_ascii_chars("from"@));
                lemma_ascii_word_bytes(t, k, "from"@);
                lemma_byte_offset_boundary(t, k);
                lemma_byte_offset_boundary(t, k + 4);
                lemma_byte_offset_mono(t, k + 4, t.len() as int);
                lemma_encode_utf8_len(t);
                assert(encode_utf8("from"@) =~= "from".spec_bytes());
            }
        }
        let from = if is_from {
            let _ = lexer.consume();
            let _ = lexer.consume();
            let _ = lexer.consume();
            let _ = lexer.consume();
            lexer.consume_white_space_and_comments()?;
            let c = lexer.cur()?;
            let path_start = lexer.cur_pos()?;
            if c == '\'' || c == '"' {
                let _ = lexer.consume();
                let (string_start, string_end) = lexer.skip_string(c)?;
                let ghost before = self.dependencies();
                self.visit_string(lexer, string_start, string_end)?;
                proof {
                    if self.dependencies() != before {
                        lemma_extends_push(old(self).dependencies(), before, self.dependencies().last(), |d: Dependency<'s>| d is LocalVar || d is Url);
                    }
                }
            } else if start_ident_sequence(c, lexer.peek()?, lexer.peek2()?) {
                lexer.consume_ident_sequence()?;
            } else {
                let path_end = lexer.peek_pos()?;
                proof {
                    lexer.lemma_positions();
                }
                self.warn(
                    Ghost(input),
                    Warning {
                        range: Range::new(path_start, path_end),
                        kind: WarningKind::Unexpected {
                            message: "Expected string or ident during parsing of 'composes'",
                        },
                    },
                );
                return Some(());
            }
            let path_end = lexer.cur_pos()?;
            let path = lexer.slice(path_start, path_end)?;
            assert(is_text_at(input, path, path_start as int, path_end as int));
            Some(path)
        } else {
            None
        };
        let name = lexer.slice(name_start, end)?;
        let dependency = Dependency::LocalVar { name, range: Range::new(start, end), from };
        let ghost before = self.dependencies();
        self.report(Ghost(input), dependency);
        proof {
            lemma_extends_push(old(self).dependencies(), before, dependency, |d: Dependency<'s>| d is LocalVar || d is Url);
        }
        Some(())
    }

    /// Reports the declaration of the custom property `name` (at `start..end`)
    /// when a `:` follows it.
    fn lex_local_var_decl(&mut self, lexer: &mut Lexer<'s>, name: &'s str, start: Pos, end: Pos) -> (r: Option<()>)
        requires
            old(self).mode_data is Some,
            old(self).inv_for(old(lexer).input()),
            old(lexer).wf(),
            start <= end,
            is_text_at(old(lexer).input().spec_bytes(), name, start + 2, end as int),
        ensures
            old(lexer).cur_is(':') ==> r is Some && final(lexer).progressed_from(*old(lexer)) && final(self).handle_dependency.dependencies_handled() == old(self).handle_dependency.dependencies_handled().push(Dependency::LocalVarDecl { name, range: Range { start, end } }),
            old(lexer).cur_char() matches Some(c) && !spec_is_white_space(c) && c != '/' && c != ':' ==> r is Some && *final(self) == *old(self) && *final(lexer) == *old(lexer),
            final(self).inv_for(final(lexer).input()),
            final(self).frame_of() == old(self).frame_of(),
            final(lexer).advanced_from(*old(lexer)),
    {
        let ghost input = lexer.input().spec_bytes();
        lexer.consume_white_space_and_comments()?;
        if lexer.cur()? != C_COLON {
            return Some(());
        }
        let _ = lexer.consume();
        self.report(Ghost(input), Dependency::LocalVarDecl { name, range: Range::new(start, end) });
        Some(())
    }

    /// Lexes the dashed name declared by `@property` or `@font-palette-values`.
    fn lex_local_dashed_ident_decl(&mut self, lexer: &mut Lexer<'s>, rule: DashedIdentRule) -> (r: Option<()>)
        requires
            old(self).mode_data is Some,
            old(self).inv_for(old(lexer).input()),
            old(lexer).wf(),
        ensures
            forall|k: int| #![trigger white_space_up_to(old(lexer).text(), old(lexer).index(), k)] white_space_up_to(old(lexer).text(), old(lexer).index(), k) && k + 1 < old(lexer).text().len() && old(lexer).text()[k] == '-' && old(lexer).text()[k + 1] == '-' ==> final(lexer).cur_char() is None || (final(self).dependencies().len() > old(self).dependencies().len() && (rule is Property ==> (final(self).dependencies()[old(self).dependencies().len() as int] matches Dependency::LocalPropertyDecl { range, .. } && range.start == byte_offset(old(lexer).text(), k))) && (rule is FontPaletteValues ==> (final(self).dependencies()[old(self).dependencies().len() as int] matches Dependency::LocalFontPaletteDecl { range, .. } && range.start == byte_offset(old(lexer).text(), k)))),
            *final(self) == (LexDependencies { handle_dependency: final(self).handle_dependency, handle_warning: final(self).handle_warning, ..*old(self) }),
            rule is Property ==> (final(self).dependencies() == old(self).dependencies() || (final(self).dependencies() == old(self).dependencies().push(final(self).dependencies().last()) && (final(self).dependencies().last() matches Dependency::LocalPropertyDecl { name, range } && name.spec_bytes() == old(lexer).input().spec_bytes().subrange(range.start + 2, range.end as int)))),
            rule is FontPaletteValues ==> (final(self).dependencies() == old(self).dependencies() || (final(self).dependencies() == old(self).dependencies().push(final(self).dependencies().last()) && (final(self).dependencies().last() matches Dependency::LocalFontPaletteDecl { name, range } && name.spec_bytes() == old(lexer).input().spec_bytes().subrange(range.start + 2, range.end as int)))),
            r is Some && final(self).dependencies() == old(self).dependencies() ==> final(self).warnings() == old(self).warnings().push(final(self).warnings().last()) && final(self).warnings().last().kind is Unexpected,
            final(self).inv_for(final(lexer).input()),
            final(self).frame_of() == old(self).frame_of(),
            final(lexer).advanced_from(*old(lexer)),
    {
        let ghost input = lexer.input().spec_bytes();
        lexer.consume_white_space_and_comments()?;
        let start = lexer.cur_pos()?;
        let ghost at_start = *lexer;
        proof {
            if lexer.cur_char() is Some {
                lexer.lemma_cur_offset();
            }
        }
        let dashed = if lexer.cur()? != C_HYPHEN_MINUS {
            false
        } else {
            lexer.peek()? == C_HYPHEN_MINUS
        };
        if !dashed {
            let end = lexer.peek2_pos()?;
            proof {
                lexer.lemma_positions();
            }
            let message = match rule {
                DashedIdentRule::Property => "Expected starts with '--' during parsing of '@property'",
                DashedIdentRule::FontPaletteValues => "Expected starts with '--' during parsing of '@font-palette-values'",
            };
            self.warn(
                Ghost(input),
                Warning { range: Range::new(start, end), kind: WarningKind::Unexpected { message } },
            );
            return Some(());
        }
        proof {
            lexer.lemma_dashes();
        }
        lexer.consume_ident_sequence()?;
        let name_start = start + 2;
        let end = lexer.cur_pos()?;
        proof {
            let t = lexer.text();
            let k = at_start.index();
            if lexer.cur_char() is Some && at_start.cur_char() == Some('-') && at_start.peek_char() == Some('-') {
                assert(t[k] == '-' && t[k + 1] == '-');
                assert(lexer.index() != k && lexer.index() != k + 1);
                lexer.lemma_cur_offset();
                assert(0 <= k && k + 2 <= t.len());
                assert(byte_offset(t, k + 1) == byte_offset(t, k) + char_width(t[k]));
                assert(byte_offset(t, k + 2) == byte_offset(t, k + 1) + char_width(t[k + 1]));
                assert(byte_offset(t, k + 2) == byte_offset(t, k) + 2);
                lemma_byte_offset_boundary(t, k + 2);
                lemma_byte_offset_boundary(t, lexer.index());
                lemma_byte_offset_mono(t, k + 2, lexer.index());
                lemma_byte_offset_mono(t, lexer.index(), t.len() as int);
                lemma_encode_utf8_len(t);
            }
        }
        let name = lexer.slice(name_start, end)?;
        let range = Range::new(start, end);
        match rule {
            DashedIdentRule::Property => {
                self.report(Ghost(input), Dependency::LocalPropertyDecl { name, range });
            },
            DashedIdentRule::FontPaletteValues => {
                self.report(Ghost(input), Dependency::LocalFontPaletteDecl { name, range });
            },
        }
        lexer.consume_white_space_and_comments()?;
        if lexer.cur()? != C_LEFT_CURLY {
            let a = lexer.cur_pos()?;
            let b = lexer.peek_pos()?;
            proof {
                lexer.lemma_positions();
            }
            let message = match rule {
                DashedIdentRule::Property => "Expected '{' during parsing of '@property'",
                DashedIdentRule::FontPaletteValues => "Expected '{' during parsing of '@font-palette-values'",
            };
            self.warn(
                Ghost(input),
                Warning { range: Range::new(a, b), kind: WarningKind::Unexpected { message } },
            );
            return Some(());
        }
        Some(())
    }

    /// Lexes the name declared by `@counter-style`.
    fn lex_local_counter_style_decl(&mut self, lexer: &mut Lexer<'s>) -> (r: Option<()>)
        requires
            old(self).mode_data is Some,
            old(self).inv_for(old(lexer).input()),
            old(lexer).wf(),
        ensures
            forall|k: int| #![trigger white_space_up_to(old(lexer).text(), old(lexer).index(), k)] white_space_up_to(old(lexer).text(), old(lexer).index(), k) && k + 2 < old(lexer).text().len() && spec_start_ident_sequence(old(lexer).text()[k], old(lexer).text()[k + 1], old(lexer).text()[k + 2]) ==> final(lexer).cur_char() is None || (final(self).dependencies().len() > old(self).dependencies().len() && (final(self).dependencies()[old(self).dependencies().len() as int] matches Dependency::LocalCounterStyleDecl { name, range } && range.start == byte_offset(old(lexer).text(), k) && name.spec_bytes() == old(lexer).input().spec_bytes().subrange(range.start as int, range.end as int))),
            *final(self) == (LexDependencies { handle_dependency: final(self).handle_dependency, handle_warning: final(self).handle_warning, ..*old(self) }),
            (final(self).dependencies() == old(self).dependencies() || (final(self).dependencies() == old(self).dependencies().push(final(self).dependencies().last()) && (final(self).dependencies().last() matches Dependency::LocalCounterStyleDecl { name, range } && name.spec_bytes() == old(lexer).input().spec_bytes().subrange(range.start as int, range.end as int)))),
            r is Some && final(self).dependencies() == old(self).dependencies() ==> final(self).warnings() == old(self).warnings().push(final(self).warnings().last()) && final(self).warnings().last().kind is Unexpected,
            final(self).inv_for(final(lexer).input()),
            final(self).frame_of() == old(self).frame_of(),
            final(lexer).advanced_from(*old(lexer)),
    {
        let ghost input = lexer.input().spec_bytes();
        lexer.consume_white_space_and_comments()?;
        let start = lexer.cur_pos()?;
        let ghost at_start = *lexer;
        proof {
            if lexer.cur_char() is Some {
                lexer.lemma_cur_offset();
            }
        }
        if !start_ident_sequence(lexer.cur()?, lexer.peek()?, lexer.peek2()?) {
            let end = lexer.peek2_pos()?;
            proof {
                lexer.lemma_positions();
            }
            self.warn(
                Ghost(input),
                Warning {
                    range: Range::new(start, end),
                    kind: WarningKind::Unexpected {
                        message: "Expected ident during parsing of '@counter-style'",
                    },
                },
            );
            return Some(());
        }
        lexer.consume_ident_sequence()?;
        let end = lexer.cur_pos()?;
        proof {
            if at_start.cur_char() is Some && lexer.cur_char() is Some {
                lexer.lemma_cur_range(at_start);
            }
        }
        let name = lexer.slice(start, end)?;
        self.report(
            Ghost(input),
            Dependency::LocalCounterStyleDecl { name, range: Range::new(start, end) },
        );
        lexer.consume_white_space_and_comments()?;
        if lexer.cur()? != C_LEFT_CURLY {
            let a = lexer.cur_pos()?;
            let b = lexer.peek_pos()?;
            proof {
                lexer.lemma_positions();
            }
            self.warn(
                Ghost(input),
                Warning {
                    range: Range::new(a, b),
                    kind: WarningKind::Unexpected {
                        message: "Expected '{' during parsing of '@counter-style'",
                    },
                },
            );
            return Some(());
        }
        Some(())
    }

    /// Reports the keyframes name of the current `animation` value, if there is one.
    fn handle_local_keyframes_dependency(&mut self, lexer: &Lexer<'s>) -> (r: Option<()>)
        requires
            old(self).mode_data is Some,
            old(self).inv_for(lexer.input()),
            lexer.wf(),
        ensures
            final(self).dependencies().len() >= old(self).dependencies().len(),
            forall|i: int| 0 <= i < old(self).dependencies().len() ==> #[trigger] final(self).dependencies()[i] == old(self).dependencies()[i],
            *final(self) == (LexDependencies { handle_dependency: final(self).handle_dependency, in_animation_property: final(self).in_animation_property, ..*old(self) }),
            old(self).in_animation_property is None ==> r is Some && *final(self) == *old(self),
            old(self).in_animation_property matches Some(p) ==> (old(self).balanced@.len() != p.balanced_len || p.rename is None) ==> r is Some && final(self).handle_dependency == old(self).handle_dependency && final(self).in_animation_property == Some(InProperty { reserved: p.reserved.after_reset(), rename: if old(self).balanced@.len() == p.balanced_len { None } else { p.rename }, ..p }),
            old(self).in_animation_property matches Some(p) ==> (old(self).balanced@.len() == p.balanced_len && p.rename is Some ==> { let range = p.rename.unwrap(); (r is Some <==> is_str_range(lexer.input(), range.start as int, range.end as int)) && (r is Some ==> final(self).handle_dependency.dependencies_handled().len() == old(self).handle_dependency.dependencies_handled().len() + 1 && (final(self).handle_dependency.dependencies_handled().last() matches Dependency::LocalKeyframes { range: rr, .. } && rr == range) && final(self).in_animation_property == Some(InProperty { reserved: p.reserved.after_reset(), rename: if old(self).balanced@.len() == p.balanced_len { None } else { p.rename }, ..p })) }),
            final(self).inv_for(lexer.input()),
            final(self).frame_of() == old(self).frame_of(),
    {
        let ghost input = lexer.input().spec_bytes();
        let balanced_len = self.balanced.len();
        if let Some(mut animation) = self.in_animation_property {
            if let Some(range) = animation.take_rename(balanced_len) {
                self.in_animation_property = Some(animation);
                let name = lexer.slice(range.start, range.end)?;
                self.report(Ghost(input), Dependency::LocalKeyframes { name, range });
            }
            animation.reset_reserved();
            self.in_animation_property = Some(animation);
        }
        Some(())
    }

    /// Reports the counter style name of the current `list-style` value, if there is one.
    fn handle_local_counter_style_dependency(&mut self, lexer: &Lexer<'s>) -> (r: Option<()>)
        requires
            old(self).mode_data is Some,
            old(self).inv_for(lexer.input()),
            lexer.wf(),
        ensures
            final(self).dependencies().len() >= old(self).dependencies().len(),
            forall|i: int| 0 <= i < old(self).dependencies().len() ==> #[trigger] final(self).dependencies()[i] == old(self).dependencies()[i],
            *final(self) == (LexDependencies { handle_dependency: final(self).handle_dependency, in_list_style_property: final(self).in_list_style_property, ..*old(self) }),
            old(self).in_list_style_property is None ==> r is Some && *final(self) == *old(self),
            old(self).in_list_style_property matches Some(p) ==> (old(self).balanced@.len() != p.balanced_len || p.rename is None) ==> r is Some && final(self).handle_dependency == old(self).handle_dependency && final(self).in_list_style_property == Some(InProperty { rename: if old(self).balanced@.len() == p.balanced_len { None } else { p.rename }, ..p }),
            old(self).in_list_style_property matches Some(p) ==> (old(self).balanced@.len() == p.balanced_len && p.rename is Some ==> { let range = p.rename.unwrap(); (r is Some <==> is_str_range(lexer.input(), range.start as int, range.end as int)) && (r is Some ==> final(self).handle_dependency.dependencies_handled().len() == old(self).handle_dependency.dependencies_handled().len() + 1 && (final(self).handle_dependency.dependencies_handled().last() matches Dependency::LocalCounterStyle { range: rr, .. } && rr == range) && final(self).in_list_style_property == Some(InProperty { rename: if old(self).balanced@.len() == p.balanced_len { None } else { p.rename }, ..p })) }),
            final(self).inv_for(lexer.input()),
            final(self).frame_of() == old(self).frame_of(),
    {
        let ghost input = lexer.input().spec_bytes();
        let balanced_len = self.balanced.len();
        if let Some(mut list_style) = self.in_list_style_property {
            let taken = list_style.take_rename(balanced_len);
            self.in_list_style_property = Some(list_style);
            if let Some(range) = taken {
                let name = lexer.slice(range.start, range.end)?;
                self.report(Ghost(input), Dependency::LocalCounterStyle { name, range });
            }
        }
        Some(())
    }

    /// Reports the palette name of the current `font-palette` value, if there is one.
    fn handle_local_font_palette_dependency(&mut self, lexer: &Lexer<'s>) -> (r: Option<()>)
        requires
            old(self).mode_data is Some,
            old(self).inv_for(lexer.input()),
            lexer.wf(),
        ensures
            final(self).dependencies().len() >= old(self).dependencies().len(),
            forall|i: int| 0 <= i < old(self).dependencies().len() ==> #[trigger] final(self).dependencies()[i] == old(self).dependencies()[i],
            *final(self) == (LexDependencies { handle_dependency: final(self).handle_dependency, in_font_palette_property: final(self).in_font_palette_property, ..*old(self) }),
            old(self).in_font_palette_property is None ==> r is Some && *final(self) == *old(self),
            old(self).in_font_palette_property matches Some(p) ==> (old(self).balanced@.len() != p.balanced_len || p.rename is None) ==> r is Some && final(self).handle_dependency == old(self).handle_dependency && final(self).in_font_palette_property == Some(InProperty { rename: if old(self).balanced@.len() == p.balanced_len { None } else { p.rename }, ..p }),
            old(self).in_font_palette_property matches Some(p) ==> (old(self).balanced@.len() == p.balanced_len && p.rename is Some ==> { let range = p.rename.unwrap(); (r is Some <==> range.start + 2 <= u32::MAX && is_str_range(lexer.input(), range.start + 2, range.end as int)) && (r is Some ==> final(self).handle_dependency.dependencies_handled().len() == old(self).handle_dependency.dependencies_handled().len() + 1 && (final(self).handle_dependency.dependencies_handled().last() matches Dependency::LocalFontPalette { range: rr, .. } && rr == range) && final(self).in_font_palette_property == Some(InProperty { rename: if old(self).balanced@.len() == p.balanced_len { None } else { p.rename }, ..p })) }),
            final(self).inv_for(lexer.input()),
            final(self).frame_of() == old(self).frame_of(),
    {
        let ghost input = lexer.input().spec_bytes();
        let balanced_len = self.balanced.len();
        if let Some(mut font_palette) = self.in_font_palette_property {
            let taken = font_palette.take_rename(balanced_len);
            self.in_font_palette_property = Some(font_palette);
            if let Some(range) = taken {
                let name_start = range.start.checked_add(2)?;
                let name = lexer.slice(name_start, range.end)?;
                self.report(Ghost(input), Dependency::LocalFontPalette { name, range });
            }
        }
        Some(())
    }

    /// At the end of a declaration, reports the local names of the property it sets.
    fn finish_properties(&mut self, lexer: &Lexer<'s>) -> (r: Option<()>)
        requires
            old(self).mode_data is Some,
            old(self).inv_for(lexer.input()),
            lexer.wf(),
        ensures
            final(self).dependencies().len() >= old(self).dependencies().len(),
            forall|i: int| 0 <= i < old(self).dependencies().len() ==> #[trigger] final(self).dependencies()[i] == old(self).dependencies()[i],
            r is Some ==> (old(self).pending_keyframes() matches Some(range) ==> (is_str_range(lexer.input(), range.start as int, range.end as int) ==> exists|i: int| 0 <= i < final(self).dependencies().len() && (#[trigger] final(self).dependencies()[i] matches Dependency::LocalKeyframes { range: rr, .. } && rr == range))),
            r is Some ==> (old(self).pending_counter_style() matches Some(range) ==> (is_str_range(lexer.input(), range.start as int, range.end as int) ==> exists|i: int| 0 <= i < final(self).dependencies().len() && (#[trigger] final(self).dependencies()[i] matches Dependency::LocalCounterStyle { range: rr, .. } && rr == range))),
            r is Some ==> (old(self).pending_font_palette() matches Some(range) ==> (range.start + 2 <= u32::MAX && is_str_range(lexer.input(), range.start + 2, range.end as int) ==> exists|i: int| 0 <= i < final(self).dependencies().len() && (#[trigger] final(self).dependencies()[i] matches Dependency::LocalFontPalette { range: rr, .. } && rr == range))),
            final(self).block_nesting_level == old(self).block_nesting_level,
            final(self).scope == old(self).scope,
            final(self).mode_data == old(self).mode_data,
            final(self).balanced == old(self).balanced,
            r is Some ==> final(self).in_animation_property is None && final(self).in_list_style_property is None && final(self).in_font_palette_property is None,
            old(self).in_animation_property is None && old(self).in_list_style_property is None && old(self).in_font_palette_property is None ==> r is Some && *final(self) == *old(self),
            final(self).inv_for(lexer.input()),
            final(self).frame_of() == old(self).frame_of(),
    {
        let ghost k1 = self.dependencies().len();
        if self.in_animation_property.is_some() {
            self.handle_local_keyframes_dependency(lexer)?;
            self.exit_animation_property();
        }
        let ghost after1 = self.dependencies();
        let ghost k2 = self.dependencies().len();
        if self.in_list_style_property.is_some() {
            self.handle_local_counter_style_dependency(lexer)?;
            self.exit_list_style_property();
        }
        let ghost after2 = self.dependencies();
        let ghost k3 = self.dependencies().len();
        if self.in_font_palette_property.is_some() {
            self.handle_local_font_palette_dependency(lexer)?;
            self.exit_font_palette_property();
        }
        proof {
            let d = self.dependencies();
            if let Some(range) = old(self).pending_keyframes() {
                if is_str_range(lexer.input(), range.start as int, range.end as int) {
                    assert(after1[k1 as int] == d[k1 as int]);
                    assert(d[k1 as int] matches Dependency::LocalKeyframes { range: rr, .. } && rr == range);
                }
            }
            if let Some(range) = old(self).pending_counter_style() {
                if is_str_range(lexer.input(), range.start as int, range.end as int) {
                    assert(after2[k2 as int] == d[k2 as int]);
                    assert(d[k2 as int] matches Dependency::LocalCounterStyle { range: rr, .. } && rr == range);
                }
            }
            if let Some(range) = old(self).pending_font_palette() {
                if range.start + 2 <= u32::MAX && is_str_range(lexer.input(), range.start + 2, range.end as int) {
                    assert(d[k3 as int] matches Dependency::LocalFontPalette { range: rr, .. } && rr == range);
                }
            }
        }
        Some(())
    }
}


impl<'s, D: HandleDependency<'s>, W: HandleWarning<'s>> LexDependencies<'s, D, W> {
    fn visit_url(
        &mut self,
        lexer: &mut Lexer<'s>,
        start: Pos,
        end: Pos,
        content_start: Pos,
        content_end: Pos,
    ) -> (r: Option<()>)
        requires
            old(self).inv_for(old(lexer).input()),
            old(lexer).wf(),
            start <= old(lexer).total(),
            end <= old(lexer).total(),
        ensures
            *final(lexer) == *old(lexer),
            !(old(self).current_scope() is InAtImport) ==> (r is Some <==> is_str_range(old(lexer).input(), content_start as int, content_end as int)),
            !is_str_range(old(lexer).input(), content_start as int, content_end as int) ==> r is None && *final(self) == *old(self),
            !(old(self).current_scope() is InBlock) && !(old(self).current_scope() is InAtImport) ==> *final(self) == *old(self),
            old(self).current_scope() is InBlock && r is Some ==> {
                &&& final(self).warnings() == old(self).warnings()
                &&& final(self).dependencies() == old(self).dependencies().push(final(self).dependencies().last())
                &&& final(self).dependencies().last() matches Dependency::Url { request, range, kind } && request.spec_bytes() == old(lexer).input().spec_bytes().subrange(content_start as int, content_end as int) && range == (Range { start, end }) && kind == UrlRangeKind::Function
            },
            old(self).current_scope() is InAtImport ==> final(self).dependencies() == old(self).dependencies(),
            final(self).inv_for(final(lexer).input()),
            final(self).frame_of() == old(self).frame_of(),
            final(lexer).advanced_from(*old(lexer)),
    {
        let ghost input = lexer.input().spec_bytes();
        let value = lexer.slice(content_start, content_end)?;
        assert(is_text_at(input, value, content_start as int, content_end as int));
        match self.scope {
            Scope::InAtImport(import_data) => {
                if import_data.in_supports() {
                    return Some(());
                }
                if import_data.url.is_some() {
                    let when = lexer.slice(import_data.start, end)?;
                    self.warn(
                        Ghost(input),
                        Warning {
                            range: Range::new(import_data.start, end),
                            kind: WarningKind::DuplicateUrl { when },
                        },
                    );
                    return Some(());
                }
                let mut data = import_data;
                data.url = Some(value);
                data.url_range = Some(Range::new(start, end));
                self.scope = Scope::InAtImport(data);
            },
            Scope::InBlock => {
                self.report(
                    Ghost(input),
                    Dependency::Url {
                        request: value,
                        range: Range::new(start, end),
                        kind: UrlRangeKind::Function,
                    },
                );
            },
            _ => {},
        }
        Some(())
    }

    fn visit_string(&mut self, lexer: &mut Lexer<'s>, start: Pos, end: Pos) -> (r: Option<()>)
        requires
            old(self).inv_for(old(lexer).input()),
            old(lexer).wf(),
            start <= old(lexer).total(),
            end <= old(lexer).total(),
        ensures
            final(self).warnings().len() >= old(self).warnings().len(),
            *final(lexer) == *old(lexer),
            !(old(self).current_scope() is InBlock) && !(old(self).current_scope() is InAtImport) ==> r is Some && *final(self) == *old(self),
            old(self).current_scope() is InBlock && (old(self).balanced_items().len() == 0 || !(old(self).balanced_items().last().kind is Url || old(self).balanced_items().last().kind is ImageSet)) ==> r is Some && *final(self) == *old(self),
            old(self).current_scope() is InBlock && old(self).balanced_items().len() > 0 && (old(self).balanced_items().last().kind is Url || old(self).balanced_items().last().kind is ImageSet) ==> {
                &&& (r is Some <==> is_str_range(old(lexer).input(), start + 1, end - 1))
                &&& final(self).warnings() == old(self).warnings()
                &&& r is None ==> *final(self) == *old(self)
                &&& r is Some ==> (final(self).dependencies() == old(self).dependencies().push(final(self).dependencies().last()) && (final(self).dependencies().last() matches Dependency::Url { request, range, kind } && request.spec_bytes() == old(lexer).input().spec_bytes().subrange(start + 1, end - 1) && range == (Range { start, end }) && kind == (if old(self).balanced_items().last().kind is Url { UrlRangeKind::String } else { UrlRangeKind::Function })))
            },
            old(self).current_scope() is InAtImport ==> final(self).dependencies() == old(self).dependencies(),
            final(self).inv_for(final(lexer).input()),
            final(self).frame_of() == old(self).frame_of(),
            final(lexer).advanced_from(*old(lexer)),
    {
        let ghost input = lexer.input().spec_bytes();
        match self.scope {
            Scope::InAtImport(import_data) => {
                let inside_url = match self.balanced.last() {
                    Some(last) => matches!(last.kind, BalancedItemKind::Url),
                    None => false,
                };
                if import_data.in_supports() || (!inside_url && import_data.url.is_some()) {
                    return Some(());
                }
                if inside_url && import_data.url.is_some() {
                    let when = lexer.slice(import_data.start, end)?;
                    self.warn(
                        Ghost(input),
                        Warning {
                            range: Range::new(import_data.start, end),
                            kind: WarningKind::DuplicateUrl { when },
                        },
                    );
                    return Some(());
                }
                let value = lexer.slice(start.checked_add(1)?, end.checked_sub(1)?)?;
                assert(is_text_at(input, value, start + 1, end - 1));
                let mut data = import_data;
                data.url = Some(value);
                if !inside_url {
                    data.url_range = Some(Range::new(start, end));
                }
                self.scope = Scope::InAtImport(data);
            },
            Scope::InBlock => {
                let last = match self.balanced.last() {
                    Some(last) => last,
                    None => return Some(()),
                };
                let kind = match last.kind {
                    BalancedItemKind::Url => UrlRangeKind::String,
                    BalancedItemKind::ImageSet => UrlRangeKind::Function,
                    _ => return Some(()),
                };
                let value = lexer.slice(start.checked_add(1)?, end.checked_sub(1)?)?;
                assert(is_text_at(input, value, start + 1, end - 1));
                self.report(
                    Ghost(input),
                    Dependency::Url { request: value, range: Range::new(start, end), kind },
                );
            },
            _ => {},
        }
        Some(())
    }

    #[verifier::spinoff_prover]
    #[verifier::rlimit(50)]
    fn visit_at_keyword(&mut self, lexer: &mut Lexer<'s>, start: Pos, end: Pos) -> (r: Option<()>)
        requires
            old(self).inv_for(old(lexer).input()),
            old(lexer).wf(),
            start <= old(lexer).total(),
            end <= old(lexer).total(),
        ensures
            old(self).scoping() is Some && is_str_range(old(lexer).input(), start as int, end as int) && bytes_eq_ignore_ascii_case(old(lexer).input().spec_bytes().subrange(start as int, end as int), "@counter-style".spec_bytes()) ==> (forall|k: int| #![trigger white_space_up_to(old(lexer).text(), old(lexer).index(), k)] white_space_up_to(old(lexer).text(), old(lexer).index(), k) && k + 2 < old(lexer).text().len() && spec_start_ident_sequence(old(lexer).text()[k], old(lexer).text()[k + 1], old(lexer).text()[k + 2]) ==> final(lexer).cur_char() is None || (final(self).dependencies().len() > old(self).dependencies().len() && (final(self).dependencies()[old(self).dependencies().len() as int] matches Dependency::LocalCounterStyleDecl { name, range } && range.start == byte_offset(old(lexer).text(), k) && name.spec_bytes() == old(lexer).input().spec_bytes().subrange(range.start as int, range.end as int)))),
            old(self).scoping() is Some && is_str_range(old(lexer).input(), start as int, end as int) && bytes_eq_ignore_ascii_case(old(lexer).input().spec_bytes().subrange(start as int, end as int), "@property".spec_bytes()) ==> (forall|k: int| #![trigger white_space_up_to(old(lexer).text(), old(lexer).index(), k)] white_space_up_to(old(lexer).text(), old(lexer).index(), k) && k + 1 < old(lexer).text().len() && old(lexer).text()[k] == '-' && old(lexer).text()[k + 1] == '-' ==> final(lexer).cur_char() is None || (final(self).dependencies().len() > old(self).dependencies().len() && (final(self).dependencies()[old(self).dependencies().len() as int] matches Dependency::LocalPropertyDecl { range, .. } && range.start == byte_offset(old(lexer).text(), k)))),
            old(self).scoping() is Some && is_str_range(old(lexer).input(), start as int, end as int) && bytes_eq_ignore_ascii_case(old(lexer).input().spec_bytes().subrange(start as int, end as int), "@font-palette-values".spec_bytes()) ==> (forall|k: int| #![trigger white_space_up_to(old(lexer).text(), old(lexer).index(), k)] white_space_up_to(old(lexer).text(), old(lexer).index(), k) && k + 1 < old(lexer).text().len() && old(lexer).text()[k] == '-' && old(lexer).text()[k + 1] == '-' ==> final(lexer).cur_char() is None || (final(self).dependencies().len() > old(self).dependencies().len() && (final(self).dependencies()[old(self).dependencies().len() as int] matches Dependency::LocalFontPaletteDecl { range, .. } && range.start == byte_offset(old(lexer).text(), k)))),
            old(self).scoping() matches Some(m) ==> (is_str_range(old(lexer).input(), start as int, end as int) && bytes_eq_ignore_ascii_case(old(lexer).input().spec_bytes().subrange(start as int, end as int), "@keyframes".spec_bytes()) ==> (forall|k: int| #![trigger white_space_up_to(old(lexer).text(), old(lexer).index(), k)] white_space_up_to(old(lexer).text(), old(lexer).index(), k) && old(lexer).text()[k] != ':' && k + 2 < old(lexer).text().len() && spec_start_ident_sequence(old(lexer).text()[k], old(lexer).text()[k + 1], old(lexer).text()[k + 2]) && (m.current == Mode::Local || m.current == Mode::Pure) ==> final(lexer).cur_char() is None || (final(self).dependencies().len() > old(self).dependencies().len() && (final(self).dependencies()[old(self).dependencies().len() as int] matches Dependency::LocalKeyframesDecl { name, range } && range.start == byte_offset(old(lexer).text(), k) && name.spec_bytes() == old(lexer).input().spec_bytes().subrange(range.start as int, range.end as int))))),
            old(self).scoping() is Some && is_str_range(old(lexer).input(), start as int, end as int) && bytes_eq_ignore_ascii_case(old(lexer).input().spec_bytes().subrange(start as int, end as int), "@scope".spec_bytes()) ==> r is Some && final(self).next_is_rule_prelude() && final(self).dependencies() == old(self).dependencies() && final(self).warnings() == old(self).warnings() && final(self).current_scope() == old(self).current_scope() && *final(lexer) == *old(lexer),
            old(self).scoping() is Some && is_str_range(old(lexer).input(), start as int, end as int) && bytes_eq_ignore_ascii_case(old(lexer).input().spec_bytes().subrange(start as int, end as int), "@property".spec_bytes()) ==> final(self).dependencies() == old(self).dependencies() || (final(self).dependencies() == old(self).dependencies().push(final(self).dependencies().last()) && (final(self).dependencies().last() matches Dependency::LocalPropertyDecl { name, range } && name.spec_bytes() == old(lexer).input().spec_bytes().subrange(range.start + 2, range.end as int))),
            old(self).scoping() is Some && is_str_range(old(lexer).input(), start as int, end as int) && bytes_eq_ignore_ascii_case(old(lexer).input().spec_bytes().subrange(start as int, end as int), "@counter-style".spec_bytes()) ==> final(self).dependencies() == old(self).dependencies() || (final(self).dependencies() == old(self).dependencies().push(final(self).dependencies().last()) && (final(self).dependencies().last() matches Dependency::LocalCounterStyleDecl { name, range } && name.spec_bytes() == old(lexer).input().spec_bytes().subrange(range.start as int, range.end as int))),
            old(self).scoping() is Some && is_str_range(old(lexer).input(), start as int, end as int) && bytes_eq_ignore_ascii_case(old(lexer).input().spec_bytes().subrange(start as int, end as int), "@font-palette-values".spec_bytes()) ==> final(self).dependencies() == old(self).dependencies() || (final(self).dependencies() == old(self).dependencies().push(final(self).dependencies().last()) && (final(self).dependencies().last() matches Dependency::LocalFontPaletteDecl { name, range } && name.spec_bytes() == old(lexer).input().spec_bytes().subrange(range.start + 2, range.end as int))),
            !is_str_range(old(lexer).input(), start as int, end as int) ==> r is None && *final(self) == *old(self) && *final(lexer) == *old(lexer),
            is_str_range(old(lexer).input(), start as int, end as int) && bytes_eq_ignore_ascii_case(old(lexer).input().spec_bytes().subrange(start as int, end as int), "@namespace".spec_bytes()) ==> {
                &&& r is Some
                &&& final(self).current_scope() is AtNamespaceInvalid
                &&& final(self).dependencies() == old(self).dependencies()
                &&& final(self).warnings() == old(self).warnings().push((Warning { range: Range { start, end }, kind: WarningKind::NamespaceNotSupportedInBundledCss }))
                &&& *final(lexer) == *old(lexer)
            },
            is_str_range(old(lexer).input(), start as int, end as int) && !bytes_eq_ignore_ascii_case(old(lexer).input().spec_bytes().subrange(start as int, end as int), "@namespace".spec_bytes()) && bytes_eq_ignore_ascii_case(old(lexer).input().spec_bytes().subrange(start as int, end as int), "@import".spec_bytes()) ==> {
                &&& r is Some
                &&& final(self).dependencies() == old(self).dependencies()
                &&& *final(lexer) == *old(lexer)
                &&& old(self).imports_allowed() ==> final(self).warnings() == old(self).warnings() && (final(self).current_scope() matches Scope::InAtImport(d) && d.start == start && d.url is None && d.url_range is None && d.supports is Unset && d.layer is Unset)
                &&& !old(self).imports_allowed() ==> final(self).current_scope() is AtImportInvalid && final(self).warnings() == old(self).warnings().push((Warning { range: Range { start, end }, kind: WarningKind::NotPrecededAtImport }))
            },
            old(self).scoping() is None && is_str_range(old(lexer).input(), start as int, end as int) && !bytes_eq_ignore_ascii_case(old(lexer).input().spec_bytes().subrange(start as int, end as int), "@namespace".spec_bytes()) && !bytes_eq_ignore_ascii_case(old(lexer).input().spec_bytes().subrange(start as int, end as int), "@import".spec_bytes()) ==> r is Some && *final(self) == *old(self) && *final(lexer) == *old(lexer),
            final(self).inv_for(final(lexer).input()),
            final(self).frame_of() == old(self).frame_of(),
            final(lexer).advanced_from(*old(lexer)),
    {
        let ghost input = lexer.input().spec_bytes();
        let name = lexer.slice(start, end)?;
        proof {
            let b = name.spec_bytes();
            if bytes_eq_ignore_ascii_case(b, "@property".spec_bytes())
                || bytes_eq_ignore_ascii_case(b, "@counter-style".spec_bytes())
                || bytes_eq_ignore_ascii_case(b, "@font-palette-values".spec_bytes())
                || bytes_eq_ignore_ascii_case(b, "@scope".spec_bytes()) {
                lemma_at_rule_word(b);
            }
            if bytes_eq_ignore_ascii_case(b, "@keyframes".spec_bytes()) {
                lemma_keyframes_word(b);
            }
        }
        if eq_ignore_ascii_case(name, "@namespace") {
            self.scope = Scope::AtNamespaceInvalid;
            self.warn(
                Ghost(input),
                Warning {
                    range: Range::new(start, end),
                    kind: WarningKind::NamespaceNotSupportedInBundledCss,
                },
            );
        } else if eq_ignore_ascii_case(name, "@import") {
            if !self.allow_import_at_rule {
                self.scope = Scope::AtImportInvalid;
                self.warn(
                    Ghost(input),
                    Warning { range: Range::new(start, end), kind: WarningKind::NotPrecededAtImport },
                );
                return Some(());
            }
            self.scope = Scope::InAtImport(ImportData::new(start));
        } else if self.mode_data.is_some() {
            if eq_ignore_ascii_case(name, "@keyframes") || with_vendor_prefixed_eq(
                name,
                "keyframes",
                true,
            ) {
                self.lex_local_keyframes_decl(lexer)?;
            } else if eq_ignore_ascii_case(name, "@property") {
                self.lex_local_dashed_ident_decl(lexer, DashedIdentRule::Property)?;
            } else if eq_ignore_ascii_case(name, "@counter-style") {
                self.lex_local_counter_style_decl(lexer)?;
            } else if eq_ignore_ascii_case(name, "@font-palette-values") {
                self.lex_local_dashed_ident_decl(lexer, DashedIdentRule::FontPaletteValues)?;
            } else {
                self.is_next_rule_prelude = eq_ignore_ascii_case(name, "@scope");
            }
            let top_level = self.block_nesting_level == 0;
            if let Some(mode_data) = &mut self.mode_data {
                if top_level {
                    mode_data.composes_local_classes.find_at_keyword();
                }
                if mode_data.is_pure_mode() {
                    mode_data.pure_global = None;
                }
            }
        }
        Some(())
    }

    /// The `;` that ends an `@import`: reports the import, or what is wrong with it.
    #[verifier::spinoff_prover]
    #[verifier::rlimit(50)]
    fn end_import(&mut self, lexer: &mut Lexer<'s>, import_data: ImportData<'s>, start: Pos, end: Pos) -> (r: Option<()>)
        requires
            old(self).inv_for(old(lexer).input()),
            old(lexer).wf(),
            start <= old(lexer).total(),
            end <= old(lexer).total(),
            import_data_wf(old(lexer).input().spec_bytes(), import_data),
        ensures
            import_data.url matches Some(u) ==> (import_data.url_range matches Some(ur) ==> (import_data.layer is Unset && import_data.supports is Unset ==> {
                &&& r is Some
                &&& final(self).current_scope() is TopLevel
                &&& final(self).warnings() == old(self).warnings()
                &&& final(self).dependencies() == old(self).dependencies().push(final(self).dependencies().last())
                &&& final(self).dependencies().last() matches Dependency::Import { request, range, layer, supports, media } && request == u && range == (Range { start: import_data.start, end }) && layer is None && supports is None && (media matches Some(m) ==> m.spec_bytes() == old(lexer).input().spec_bytes().subrange(ur.end as int, start as int))
                &&& is_str_range(old(lexer).input(), ur.end as int, start as int) && old(lexer).text_at(ur.end as int, start as int).len() > 0 && !spec_is_white_space(old(lexer).text_at(ur.end as int, start as int)[0]) && old(lexer).text_at(ur.end as int, start as int)[0] != '/' ==> (final(self).dependencies().last() matches Dependency::Import { media, .. } && media is Some)
            })),
            final(self).dependencies() == old(self).dependencies() || (final(self).dependencies().last() matches Dependency::Import { layer, supports, .. } && layer == (match import_data.layer { ImportDataLayer::EndLayer { value, .. } => Some(value), ImportDataLayer::Unset => None }) && supports == (match import_data.supports { ImportDataSupports::EndSupports { value, .. } => Some(value), _ => None })),
            *final(lexer) == *old(lexer),
            r is Some ==> final(self).current_scope() is TopLevel,
            import_data.url is None ==> final(self).dependencies() == old(self).dependencies(),
            import_data.url is None && is_str_range(old(lexer).input(), import_data.start as int, end as int) ==> r is Some && final(self).warnings() == old(self).warnings().push(final(self).warnings().last()) && final(self).warnings().last().range == (Range { start: import_data.start, end }) && final(self).warnings().last().kind is ExpectedUrl,
            import_data.url is Some && import_data.url_range is None ==> r is Some && final(self).dependencies() == old(self).dependencies() && final(self).warnings() == old(self).warnings().push(final(self).warnings().last()) && final(self).warnings().last().range == (Range { start, end }) && final(self).warnings().last().kind is Unexpected,
            final(self).dependencies() == old(self).dependencies() || (final(self).dependencies() == old(self).dependencies().push(final(self).dependencies().last()) && (final(self).dependencies().last() matches Dependency::Import { request, range, .. } && import_data.url == Some(request) && range == (Range { start: import_data.start, end }))),
            final(self).inv_for(final(lexer).input()),
            final(self).frame_of() == old(self).frame_of(),
            final(lexer).advanced_from(*old(lexer)),
    {
        let ghost input = lexer.input().spec_bytes();
        let url = match import_data.url {
            Some(url) => url,
            None => {
                let when = lexer.slice(import_data.start, end)?;
                self.warn(
                    Ghost(input),
                    Warning {
                        range: Range::new(import_data.start, end),
                        kind: WarningKind::ExpectedUrl { when },
                    },
                );
                self.scope = Scope::TopLevel;
                return Some(());
            },
        };
        let url_range = match import_data.url_range {
            Some(url_range) => url_range,
            None => {
                self.warn(
                    Ghost(input),
                    Warning {
                        range: Range::new(start, end),
                        kind: WarningKind::Unexpected {
                            message: "Unexpected ';' during parsing of '@import url()'",
                        },
                    },
                );
                self.scope = Scope::TopLevel;
                return Some(());
            },
        };
        let layer = match import_data.layer {
            ImportDataLayer::Unset => None,
            ImportDataLayer::EndLayer { value, range } => {
                if url_range.start > range.start {
                    let when = lexer.slice(range.start, url_range.end)?;
                    assert(is_text_at(input, when, range.start as int, url_range.end as int));
                    self.warn(
                        Ghost(input),
                        Warning { range: url_range, kind: WarningKind::ExpectedUrlBefore { when } },
                    );
                    self.scope = Scope::TopLevel;
                    return Some(());
                }
                Some(value)
            },
        };
        let supports = match import_data.supports {
            ImportDataSupports::Unset => None,
            ImportDataSupports::InSupports => {
                self.warn(
                    Ghost(input),
                    Warning {
                        range: Range::new(start, end),
                        kind: WarningKind::Unexpected {
                            message: "Unexpected ';' during parsing of 'supports()'",
                        },
                    },
                );
                None
            },
            ImportDataSupports::EndSupports { value, range } => {
                if url_range.start > range.start {
                    let when = lexer.slice(range.start, url_range.end)?;
                    assert(is_text_at(input, when, range.start as int, url_range.end as int));
                    self.warn(
                        Ghost(input),
                        Warning { range: url_range, kind: WarningKind::ExpectedUrlBefore { when } },
                    );
                    self.scope = Scope::TopLevel;
                    return Some(());
                }
                Some(value)
            },
        };
        if let Some(layer_range) = import_data.layer_range() {
            if let Some(supports_range) = import_data.supports_range() {
                if layer_range.start > supports_range.start {
                    let when = lexer.slice(supports_range.start, layer_range.end)?;
                    assert(is_text_at(input, when, supports_range.start as int, layer_range.end as int));
                    self.warn(
                        Ghost(input),
                        Warning { range: layer_range, kind: WarningKind::ExpectedLayerBefore { when } },
                    );
                    self.scope = Scope::TopLevel;
                    return Some(());
                }
            }
        }
        let last_end = match import_data.supports_range() {
            Some(range) => range.end,
            None => match import_data.layer_range() {
                Some(range) => range.end,
                None => url_range.end,
            },
        };
        let media = self.get_media(lexer, last_end, start);
        self.report(
            Ghost(input),
            Dependency::Import {
                request: url,
                range: Range::new(import_data.start, end),
                layer,
                supports,
                media,
            },
        );
        self.scope = Scope::TopLevel;
        Some(())
    }

    fn visit_semicolon(&mut self, lexer: &mut Lexer<'s>, start: Pos, end: Pos) -> (r: Option<()>)
        requires
            old(self).inv_for(old(lexer).input()),
            old(lexer).wf(),
            start <= old(lexer).total(),
            end <= old(lexer).total(),
        ensures
            old(self).current_scope() is InBlock && (old(self).scoping() matches Some(m) && (m.property == Mode::Local || m.property == Mode::Pure)) && r is Some ==> (old(self).pending_keyframes() matches Some(range) ==> (is_str_range(old(lexer).input(), range.start as int, range.end as int) ==> exists|i: int| 0 <= i < final(self).dependencies().len() && (#[trigger] final(self).dependencies()[i] matches Dependency::LocalKeyframes { range: rr, .. } && rr == range))) && (old(self).pending_counter_style() matches Some(range) ==> (is_str_range(old(lexer).input(), range.start as int, range.end as int) ==> exists|i: int| 0 <= i < final(self).dependencies().len() && (#[trigger] final(self).dependencies()[i] matches Dependency::LocalCounterStyle { range: rr, .. } && rr == range))) && (old(self).pending_font_palette() matches Some(range) ==> (range.start + 2 <= u32::MAX && is_str_range(old(lexer).input(), range.start + 2, range.end as int) ==> exists|i: int| 0 <= i < final(self).dependencies().len() && (#[trigger] final(self).dependencies()[i] matches Dependency::LocalFontPalette { range: rr, .. } && rr == range))),
            old(self).current_scope() matches Scope::InAtImport(d) ==> (d.url matches Some(u) ==> (d.url_range matches Some(ur) ==> (d.layer is Unset && d.supports is Unset ==> {
                &&& r is Some
                &&& final(self).current_scope() is TopLevel
                &&& final(self).warnings() == old(self).warnings()
                &&& final(self).dependencies() == old(self).dependencies().push(final(self).dependencies().last())
                &&& final(self).dependencies().last() matches Dependency::Import { request, range, layer, supports, media } && request == u && range == (Range { start: d.start, end }) && layer is None && supports is None && (media matches Some(m) ==> m.spec_bytes() == old(lexer).input().spec_bytes().subrange(ur.end as int, start as int))
                &&& is_str_range(old(lexer).input(), ur.end as int, start as int) && old(lexer).text_at(ur.end as int, start as int).len() > 0 && !spec_is_white_space(old(lexer).text_at(ur.end as int, start as int)[0]) && old(lexer).text_at(ur.end as int, start as int)[0] != '/' ==> (final(self).dependencies().last() matches Dependency::Import { media, .. } && media is Some)
            }))),
            old(self).current_scope() is InBlock && (old(self).scoping() matches Some(m) && (m.property == Mode::Local || m.property == Mode::Pure)) && r is Some ==> final(self).no_open_property(),
            old(self).current_scope() is TopLevel ==> r is Some && *final(self) == *old(self) && *final(lexer) == *old(lexer),
            old(self).current_scope() is AtImportInvalid || old(self).current_scope() is AtNamespaceInvalid ==> r is Some && final(self).current_scope() is TopLevel && final(self).dependencies() == old(self).dependencies() && final(self).warnings() == old(self).warnings() && final(self).balanced_items() == old(self).balanced_items() && *final(lexer) == *old(lexer),
            old(self).current_scope() is InBlock && old(self).scoping() is None ==> r is Some && *final(self) == *old(self) && *final(lexer) == *old(lexer),
            old(self).current_scope() is InAtImport && r is Some ==> final(self).current_scope() is TopLevel,
            old(self).current_scope() matches Scope::InAtImport(d) ==> (final(self).dependencies() == old(self).dependencies() || (final(self).dependencies() == old(self).dependencies().push(final(self).dependencies().last()) && (final(self).dependencies().last() matches Dependency::Import { request, range, .. } && d.url == Some(request) && range == (Range { start: d.start, end })))),
            final(self).inv_for(final(lexer).input()),
            final(self).frame_of() == old(self).frame_of(),
            final(lexer).advanced_from(*old(lexer)),
    {
        match self.scope {
            Scope::InAtImport(import_data) => {
                return self.end_import(lexer, import_data, start, end);
            },
            Scope::AtImportInvalid | Scope::AtNamespaceInvalid => {
                self.scope = Scope::TopLevel;
            },
            Scope::InBlock => {
                if self.mode_data.is_some() {
                    let mut property_local = false;
                    if let Some(mode_data) = &mut self.mode_data {
                        mode_data.pure_global = Some(end);
                        property_local = mode_data.is_property_local_mode();
                    }
                    if property_local {
                        self.finish_properties(lexer)?;
                    }
                    self.is_next_rule_prelude = self.is_next_nested_syntax(lexer)?;
                }
            },
            _ => {},
        }
        Some(())
    }

    fn visit_function(&mut self, lexer: &mut Lexer<'s>, start: Pos, end: Pos) -> (r: Option<()>)
        requires
            old(self).inv_for(old(lexer).input()),
            old(lexer).wf(),
            start <= old(lexer).total(),
            end <= old(lexer).total(),
        ensures
            old(self).scoping() is None ==> *final(lexer) == *old(lexer),
            !is_str_range(old(lexer).input(), start as int, end as int) ==> r is None && *final(self) == *old(self) && *final(lexer) == *old(lexer),
            old(self).scoping() is None && is_str_range(old(lexer).input(), start as int, end as int) ==> {
                &&& r is Some
                &&& final(self).dependencies() == old(self).dependencies()
                &&& final(self).warnings() == old(self).warnings()
                &&& old(self).balanced_items().len() < MAX_LIST_LEN ==> final(self).balanced_items() == old(self).balanced_items().push((BalancedItem { kind: spec_balanced_kind(old(lexer).input().spec_bytes().subrange(start as int, end as int)), range: Range { start, end } }))
            },
            final(self).inv_for(final(lexer).input()),
            final(self).frame_of() == old(self).frame_of(),
            final(lexer).advanced_from(*old(lexer)),
    {
        let ghost input = lexer.input().spec_bytes();
        let name = lexer.slice(start, end)?;
        self.bal_push(Ghost(input), BalancedItem::new(name, start, end));
        if let Scope::InAtImport(import_data) = self.scope {
            if eq_ignore_ascii_case(name, "supports(") {
                let mut data = import_data;
                data.supports = ImportDataSupports::InSupports;
                self.scope = Scope::InAtImport(data);
            }
        }
        let local = match &self.mode_data {
            Some(mode_data) => mode_data.is_current_local_mode(),
            None => return Some(()),
        };
        if local && eq_ignore_ascii_case(name, "var(") {
            self.lex_local_var(lexer)?;
        }
        Some(())
    }

    fn visit_left_parenthesis(&mut self, lexer: &mut Lexer<'s>, start: Pos, end: Pos) -> (r: Option<()>)
        requires
            old(self).inv_for(old(lexer).input()),
            old(lexer).wf(),
            start <= old(lexer).total(),
            end <= old(lexer).total(),
        ensures
            r is Some,
            *final(lexer) == *old(lexer),
            old(self).balanced_items().len() < MAX_LIST_LEN ==> final(self).balanced_items() == old(self).balanced_items().push((BalancedItem { kind: BalancedItemKind::Other, range: Range { start, end } })),
            final(self).dependencies() == old(self).dependencies(),
            final(self).warnings() == old(self).warnings(),
            final(self).current_scope() == old(self).current_scope(),
            final(self).inv_for(final(lexer).input()),
            final(self).frame_of() == old(self).frame_of(),
            final(lexer).advanced_from(*old(lexer)),
    {
        let ghost input = lexer.input().spec_bytes();
        self.bal_push(Ghost(input), BalancedItem::new_other(start, end));
        Some(())
    }

    fn visit_right_parenthesis(&mut self, lexer: &mut Lexer<'s>, start: Pos, end: Pos) -> (r: Option<()>)
        requires
            old(self).inv_for(old(lexer).input()),
            old(lexer).wf(),
            start <= old(lexer).total(),
            end <= old(lexer).total(),
        ensures
            old(self).balanced_items().len() > 0 && !(old(self).current_scope() is InAtImport) && !old(self).balanced_items().last().kind.spec_is_mode_function() && !old(self).balanced_items().last().kind.spec_is_mode_class() ==> r is Some && final(self).dependencies() == old(self).dependencies() && final(self).warnings() == old(self).warnings() && final(self).balanced_items() == old(self).balanced_items().drop_last(),
            old(self).balanced_items().len() == 1 && old(self).balanced_items().last().kind.spec_is_mode_class() && !(old(self).current_scope() is InAtImport) ==> r is Some && final(self).balanced_items().len() == 0 && final(self).dependencies() == old(self).dependencies() && final(self).warnings() == old(self).warnings(),
            old(self).scoping() is Some && old(self).balanced_items().len() > 0 && old(self).balanced_items().last().kind.spec_is_mode_function() && r is Some ==> final(self).dependencies() == old(self).dependencies().push(final(self).dependencies().last()) && (final(self).dependencies().last() matches Dependency::Replace { content, range } && content.spec_bytes().len() == 0 && range.end == end && range.start <= start),
            old(self).current_scope() matches Scope::InAtImport(d) ==> (old(self).balanced_items().len() > 0 && !(d.supports is InSupports) && old(self).balanced_items().last().kind is Url && r is Some ==> (final(self).current_scope() matches Scope::InAtImport(d2) && d2.url_range == Some(Range { start: old(self).balanced_items().last().range.start, end }) && d2.url == d.url && d2.layer == d.layer && d2.supports == d.supports)),
            old(self).current_scope() matches Scope::InAtImport(d) ==> (old(self).balanced_items().len() > 0 && !(d.supports is InSupports) && old(self).balanced_items().last().kind is Layer && r is Some ==> (final(self).current_scope() matches Scope::InAtImport(d2) && d2.url == d.url && d2.url_range == d.url_range && d2.supports == d.supports && (d2.layer matches ImportDataLayer::EndLayer { value, range } && range == (Range { start: old(self).balanced_items().last().range.start, end }) && value.spec_bytes() == old(lexer).input().spec_bytes().subrange(old(self).balanced_items().last().range.end as int, end - 1)))),
            old(self).current_scope() matches Scope::InAtImport(d) ==> (old(self).balanced_items().len() > 0 && old(self).balanced_items().last().kind is Supports && r is Some ==> (final(self).current_scope() matches Scope::InAtImport(d2) && d2.url == d.url && d2.url_range == d.url_range && d2.layer == d.layer && (d2.supports matches ImportDataSupports::EndSupports { value, range } && range == (Range { start: old(self).balanced_items().last().range.start, end }) && value.spec_bytes() == old(lexer).input().spec_bytes().subrange(old(self).balanced_items().last().range.end as int, end - 1)))),
            *final(lexer) == *old(lexer),
            old(self).balanced_items().len() == 0 ==> r is Some && final(self).dependencies() == old(self).dependencies() && final(self).warnings() == old(self).warnings() && final(self).balanced_items() == old(self).balanced_items() && final(self).current_scope() == old(self).current_scope() && final(self).scoping() == old(self).scoping(),
            old(self).balanced_items().len() > 0 ==> final(self).balanced_items().len() < old(self).balanced_items().len() && final(self).balanced_items() == old(self).balanced_items().subrange(0, final(self).balanced_items().len() as int),
            old(self).scoping() is None ==> final(self).dependencies() == old(self).dependencies() && final(self).warnings() == old(self).warnings(),
            final(self).inv_for(final(lexer).input()),
            final(self).frame_of() == old(self).frame_of(),
            final(lexer).advanced_from(*old(lexer)),
    {
        let ghost input = lexer.input().spec_bytes();
        let ghost items = self.balanced@;
        let last = match self.bal_pop(Ghost(input)) {
            Some(last) => last,
            None => return Some(()),
        };
        assert(self.balanced@ =~= items.subrange(0, self.balanced@.len() as int));
        let mut replace = false;
        if self.mode_data.is_some() {
            let mut is_function = last.kind.is_mode_function();
            if last.kind.is_mode_class() {
                self.bal_pop_mode_pseudo_class(Ghost(input));
                assert(self.balanced@ =~= items.subrange(0, self.balanced@.len() as int));
                is_function = match self.bal_pop_without_mode_data(Ghost(input)) {
                    Some(popped) => popped.kind.is_mode_function(),
                    None => false,
                };
                assert(self.balanced@ =~= items.subrange(0, self.balanced@.len() as int));
            }
            replace = is_function;
        }
        if replace {
            let distance = back_white_space_and_comments_distance(
                lexer.value().as_bytes(),
                start as usize,
            )?;
            let start = start - distance as u32;
            let maybe_left_parenthesis_start = start - 1;
            if str_eq(lexer.slice(start - 1, start)?, "(") {
                self.warn(
                    Ghost(input),
                    Warning {
                        range: Range::new(maybe_left_parenthesis_start, end),
                        kind: WarningKind::Unexpected {
                            message: "':global()' or ':local()' can't be empty",
                        },
                    },
                );
            }
            let content = empty_text();
            self.report(
                Ghost(input),
                Dependency::Replace { content, range: Range::new(start, end) },
            );
        }
        if let Scope::InAtImport(import_data) = self.scope {
            let not_in_supports = !import_data.in_supports();
            let mut data = import_data;
            if matches!(last.kind, BalancedItemKind::Url) && not_in_supports {
                data.url_range = Some(Range::new(last.range.start, end));
            } else if matches!(last.kind, BalancedItemKind::Layer) && not_in_supports {
                let value = lexer.slice(last.range.end, end.checked_sub(1)?)?;
                assert(is_text_at(input, value, last.range.end as int, end - 1));
                data.layer = ImportDataLayer::EndLayer {
                    value,
                    range: Range::new(last.range.start, end),
                };
            } else if matches!(last.kind, BalancedItemKind::Supports) {
                let value = lexer.slice(last.range.end, end.checked_sub(1)?)?;
                assert(is_text_at(input, value, last.range.end as int, end - 1));
                data.supports = ImportDataSupports::EndSupports {
                    value,
                    range: Range::new(last.range.start, end),
                };
            }
            self.scope = Scope::InAtImport(data);
        }
        Some(())
    }

    /// An identifier inside a block: a property name, or a local name in the
    /// value of `animation`, `list-style` or `font-palette`.
    fn ident_in_block(&mut self, lexer: &mut Lexer<'s>, start: Pos, end: Pos) -> (r: Option<()>)
        requires
            old(self).inv_for(old(lexer).input()),
            old(lexer).wf(),
            start <= old(lexer).total(),
            end <= old(lexer).total(),
        ensures
            old(self).scoping() matches Some(m) ==> ((!(m.property == Mode::Local || m.property == Mode::Pure) || old(self).no_open_property()) && is_str_range(old(lexer).input(), start as int, end as int) && (bytes_eq_ignore_ascii_case(old(lexer).input().spec_bytes().subrange(start as int, end as int), "composes".spec_bytes()) || bytes_eq_ignore_ascii_case(old(lexer).input().spec_bytes().subrange(start as int, end as int), "compose-with".spec_bytes())) && old(self).nesting() == 1 && old(self).composes_ready(old(lexer).input()) ==> (forall|k: int| #![trigger white_space_up_to(old(lexer).text(), old(lexer).index(), k)] white_space_up_to(old(lexer).text(), old(lexer).index(), k) && old(lexer).text()[k] == ':' ==> (r is Some && final(self).warnings().len() == old(self).warnings().len() ==> final(self).dependencies().len() > 0 && (final(self).dependencies().last() matches Dependency::Replace { content, range } && content.spec_bytes().len() == 0 && range.start == start)))),
            old(self).scoping() matches Some(m) ==> ((m.property == Mode::Local || m.property == Mode::Pure) && old(self).no_open_property() && is_str_range(old(lexer).input(), start as int, end as int) && (2 <= end - start && old(lexer).input().spec_bytes().subrange(start as int, end as int).subrange(0, 2) == "--".spec_bytes()) && is_str_range(old(lexer).input(), start + 2, end as int) && old(lexer).cur_is(':') ==> r is Some && final(self).dependencies() == old(self).dependencies().push(final(self).dependencies().last()) && (final(self).dependencies().last() matches Dependency::LocalVarDecl { name, range } && range == (Range { start, end }) && name.spec_bytes() == old(lexer).input().spec_bytes().subrange(start + 2, end as int))),
            old(self).scoping() matches Some(m) ==> ((m.property == Mode::Local || m.property == Mode::Pure) && old(self).no_open_property() && is_str_range(old(lexer).input(), start as int, end as int) && !(2 <= end - start && old(lexer).input().spec_bytes().subrange(start as int, end as int).subrange(0, 2) == "--".spec_bytes()) && (bytes_eq_ignore_ascii_case(old(lexer).input().spec_bytes().subrange(start as int, end as int), "animation".spec_bytes()) || bytes_eq_ignore_ascii_case(old(lexer).input().spec_bytes().subrange(start as int, end as int), "animation-name".spec_bytes())) ==> r is Some && final(self).reading_animation() && final(self).dependencies() == old(self).dependencies() && final(self).warnings() == old(self).warnings()),
            old(self).scoping() matches Some(m) ==> ((!(m.property == Mode::Local || m.property == Mode::Pure) || old(self).no_open_property()) && is_str_range(old(lexer).input(), start as int, end as int) && (bytes_eq_ignore_ascii_case(old(lexer).input().spec_bytes().subrange(start as int, end as int), "composes".spec_bytes()) || bytes_eq_ignore_ascii_case(old(lexer).input().spec_bytes().subrange(start as int, end as int), "compose-with".spec_bytes())) && old(self).nesting() != 1 ==> r is Some && final(self).dependencies() == old(self).dependencies() && final(self).warnings() == old(self).warnings().push(final(self).warnings().last()) && final(self).warnings().last().kind is UnexpectedComposition && final(self).warnings().last().range == (Range { start, end })),
            old(self).scoping() matches Some(m) ==> ((!(m.property == Mode::Local || m.property == Mode::Pure) || old(self).no_open_property()) && is_str_range(old(lexer).input(), start as int, end as int) && (bytes_eq_ignore_ascii_case(old(lexer).input().spec_bytes().subrange(start as int, end as int), "composes".spec_bytes()) || bytes_eq_ignore_ascii_case(old(lexer).input().spec_bytes().subrange(start as int, end as int), "compose-with".spec_bytes())) && old(self).nesting() == 1 && !(m.composes_local_classes.is_single is Single) ==> r is Some && final(self).dependencies() == old(self).dependencies() && final(self).warnings() == old(self).warnings().push(final(self).warnings().last()) && final(self).warnings().last().kind is UnexpectedComposition && final(self).warnings().last().range == (Range { start, end })),
            old(self).scoping() is None ==> r is Some && *final(self) == *old(self) && *final(lexer) == *old(lexer),
            final(self).inv_for(final(lexer).input()),
            final(self).frame_of() == old(self).frame_of(),
            final(lexer).advanced_from(*old(lexer)),
    {
        let ghost input = lexer.input().spec_bytes();
        let property_local = match &self.mode_data {
            Some(mode_data) => mode_data.is_property_local_mode(),
            None => return Some(()),
        };
        let ident = lexer.slice(start, end)?;
        proof {
            reveal_strlit("--");
            vstd::string::is_ascii_spec_bytes("--");
            if bytes_eq_ignore_ascii_case(ident.spec_bytes(), "composes".spec_bytes())
                || bytes_eq_ignore_ascii_case(ident.spec_bytes(), "compose-with".spec_bytes()) {
                lemma_composes_word(ident.spec_bytes());
            }
        }
        if property_local {
            if let Some(mut animation) = self.in_animation_property {
                if self.balanced.is_empty() {
                    animation.set_rename(ident, Range::new(start, end));
                    self.in_animation_property = Some(animation);
                }
                return Some(());
            }
            if let Some(mut list_style) = self.in_list_style_property {
                if self.balanced.is_empty() {
                    list_style.set_rename(ident, Range::new(start, end));
                    self.in_list_style_property = Some(list_style);
                }
                return Some(());
            }
            if let Some(mut font_palette) = self.in_font_palette_property {
                let in_palette_mix = match self.balanced.last() {
                    Some(last) => matches!(last.kind, BalancedItemKind::PaletteMix),
                    None => false,
                };
                if self.balanced.is_empty() || in_palette_mix {
                    font_palette.set_rename(ident, Range::new(start, end));
                    self.in_font_palette_property = Some(font_palette);
                }
                return Some(());
            }
            if str_starts_with(ident, "--") {
                let name = lexer.slice(start.checked_add(2)?, end)?;
                return self.lex_local_var_decl(lexer, name, start, end);
            }
            if eq_ignore_ascii_case(ident, "animation") || eq_ignore_ascii_case(ident, "animation-name")
                || with_vendor_prefixed_eq(ident, "animation", false) || with_vendor_prefixed_eq(
                ident,
                "animation-name",
                false,
            ) {
                self.enter_animation_property();
                return Some(());
            }
            if eq_ignore_ascii_case(ident, "list-style") || eq_ignore_ascii_case(ident, "list-style-type") {
                self.enter_list_style_property();
                return Some(());
            }
            if eq_ignore_ascii_case(ident, "font-palette") {
                self.enter_font_palette_property();
                return Some(());
            }
        }
        if eq_ignore_ascii_case(ident, "composes") || eq_ignore_ascii_case(ident, "compose-with") {
            if self.block_nesting_level != 1 {
                self.warn(
                    Ghost(input),
                    Warning {
                        range: Range::new(start, end),
                        kind: WarningKind::UnexpectedComposition { message: "not allowed in nested rule" },
                    },
                );
                return Some(());
            }
            let mut valid: Option<NameList<'s>> = None;
            if let Some(mode_data) = &mut self.mode_data {
                valid = mode_data.composes_local_classes.get_valid_local_classes(lexer);
            }
            let local_classes = match valid {
                Some(local_classes) => local_classes,
                None => {
                    self.warn(
                        Ghost(input),
                        Warning {
                            range: Range::new(start, end),
                            kind: WarningKind::UnexpectedComposition {
                                message: "only allowed when selector is single :local class",
                            },
                        },
                    );
                    return Some(());
                },
            };
            return self.lex_composes(lexer, local_classes, start);
        }
        Some(())
    }

    fn visit_ident(&mut self, lexer: &mut Lexer<'s>, start: Pos, end: Pos) -> (r: Option<()>)
        requires
            old(self).inv_for(old(lexer).input()),
            old(lexer).wf(),
            start <= old(lexer).total(),
            end <= old(lexer).total(),
        ensures
            old(self).current_scope() is InBlock ==> (old(self).scoping() matches Some(m) ==> ((!(m.property == Mode::Local || m.property == Mode::Pure) || old(self).no_open_property()) && is_str_range(old(lexer).input(), start as int, end as int) && (bytes_eq_ignore_ascii_case(old(lexer).input().spec_bytes().subrange(start as int, end as int), "composes".spec_bytes()) || bytes_eq_ignore_ascii_case(old(lexer).input().spec_bytes().subrange(start as int, end as int), "compose-with".spec_bytes())) && old(self).nesting() == 1 && old(self).composes_ready(old(lexer).input()) ==> (forall|k: int| #![trigger white_space_up_to(old(lexer).text(), old(lexer).index(), k)] white_space_up_to(old(lexer).text(), old(lexer).index(), k) && old(lexer).text()[k] == ':' ==> (r is Some && final(self).warnings().len() == old(self).warnings().len() ==> final(self).dependencies().len() > 0 && (final(self).dependencies().last() matches Dependency::Replace { content, range } && content.spec_bytes().len() == 0 && range.start == start))))),
            old(self).current_scope() is InBlock ==> (old(self).scoping() matches Some(m) ==> ((m.property == Mode::Local || m.property == Mode::Pure) && old(self).no_open_property() && is_str_range(old(lexer).input(), start as int, end as int) && (2 <= end - start && old(lexer).input().spec_bytes().subrange(start as int, end as int).subrange(0, 2) == "--".spec_bytes()) && is_str_range(old(lexer).input(), start + 2, end as int) && old(lexer).cur_is(':') ==> r is Some && final(self).dependencies() == old(self).dependencies().push(final(self).dependencies().last()) && (final(self).dependencies().last() matches Dependency::LocalVarDecl { name, range } && range == (Range { start, end }) && name.spec_bytes() == old(lexer).input().spec_bytes().subrange(start + 2, end as int)))),
            old(self).current_scope() is InBlock ==> (old(self).scoping() matches Some(m) ==> ((m.property == Mode::Local || m.property == Mode::Pure) && old(self).no_open_property() && is_str_range(old(lexer).input(), start as int, end as int) && !(2 <= end - start && old(lexer).input().spec_bytes().subrange(start as int, end as int).subrange(0, 2) == "--".spec_bytes()) && (bytes_eq_ignore_ascii_case(old(lexer).input().spec_bytes().subrange(start as int, end as int), "animation".spec_bytes()) || bytes_eq_ignore_ascii_case(old(lexer).input().spec_bytes().subrange(start as int, end as int), "animation-name".spec_bytes())) ==> r is Some && final(self).reading_animation() && final(self).dependencies() == old(self).dependencies() && final(self).warnings() == old(self).warnings())),
            old(self).current_scope() is InBlock ==> (old(self).scoping() matches Some(m) ==> ((!(m.property == Mode::Local || m.property == Mode::Pure) || old(self).no_open_property()) && is_str_range(old(lexer).input(), start as int, end as int) && (bytes_eq_ignore_ascii_case(old(lexer).input().spec_bytes().subrange(start as int, end as int), "composes".spec_bytes()) || bytes_eq_ignore_ascii_case(old(lexer).input().spec_bytes().subrange(start as int, end as int), "compose-with".spec_bytes())) && old(self).nesting() != 1 ==> r is Some && final(self).dependencies() == old(self).dependencies() && final(self).warnings() == old(self).warnings().push(final(self).warnings().last()) && final(self).warnings().last().kind is UnexpectedComposition && final(self).warnings().last().range == (Range { start, end }))),
            old(self).current_scope() is InBlock ==> (old(self).scoping() matches Some(m) ==> ((!(m.property == Mode::Local || m.property == Mode::Pure) || old(self).no_open_property()) && is_str_range(old(lexer).input(), start as int, end as int) && (bytes_eq_ignore_ascii_case(old(lexer).input().spec_bytes().subrange(start as int, end as int), "composes".spec_bytes()) || bytes_eq_ignore_ascii_case(old(lexer).input().spec_bytes().subrange(start as int, end as int), "compose-with".spec_bytes())) && old(self).nesting() == 1 && !(m.composes_local_classes.is_single is Single) ==> r is Some && final(self).dependencies() == old(self).dependencies() && final(self).warnings() == old(self).warnings().push(final(self).warnings().last()) && final(self).warnings().last().kind is UnexpectedComposition && final(self).warnings().last().range == (Range { start, end }))),
            old(self).current_scope() is InBlock && old(self).scoping() is None ==> r is Some && *final(self) == *old(self) && *final(lexer) == *old(lexer),
            old(self).current_scope() is AtImportInvalid || old(self).current_scope() is AtNamespaceInvalid ==> r is Some && *final(self) == *old(self) && *final(lexer) == *old(lexer),
            old(self).current_scope() is TopLevel ==> r is Some && *final(lexer) == *old(lexer) && final(self).dependencies() == old(self).dependencies() && final(self).warnings() == old(self).warnings() && final(self).balanced_items() == old(self).balanced_items() && final(self).current_scope() == old(self).current_scope(),
            old(self).current_scope() matches Scope::InAtImport(d) ==> {
                &&& *final(lexer) == *old(lexer)
                &&& final(self).dependencies() == old(self).dependencies() && final(self).warnings() == old(self).warnings()
                &&& (r is Some <==> is_str_range(old(lexer).input(), start as int, end as int))
                &&& r is Some && bytes_eq_ignore_ascii_case(old(lexer).input().spec_bytes().subrange(start as int, end as int), "layer".spec_bytes()) ==> (final(self).current_scope() matches Scope::InAtImport(d2) && d2.start == d.start && d2.url == d.url && d2.url_range == d.url_range && d2.supports == d.supports && (d2.layer matches ImportDataLayer::EndLayer { value, range } && value.spec_bytes().len() == 0 && range == (Range { start, end })))
                &&& !bytes_eq_ignore_ascii_case(old(lexer).input().spec_bytes().subrange(start as int, end as int), "layer".spec_bytes()) ==> final(self).current_scope() == old(self).current_scope()
            },
            final(self).inv_for(final(lexer).input()),
            final(self).frame_of() == old(self).frame_of(),
            final(lexer).advanced_from(*old(lexer)),
    {
        match self.scope {
            Scope::InBlock => {
                return self.ident_in_block(lexer, start, end);
            },
            Scope::InAtImport(import_data) => {
                if eq_ignore_ascii_case(lexer.slice(start, end)?, "layer") {
                    let value = empty_text();
                    proof {
                        assert(value.spec_bytes() =~= lexer.input().spec_bytes().subrange(start as int, start as int));
                        assert(is_text_at(lexer.input().spec_bytes(), value, start as int, start as int));
                    }
                    let mut data = import_data;
                    data.layer = ImportDataLayer::EndLayer { value, range: Range::new(start, end) };
                    self.scope = Scope::InAtImport(data);
                }
            },
            Scope::TopLevel => {
                if let Some(mode_data) = &mut self.mode_data {
                    mode_data.composes_local_classes.invalidate();
                }
            },
            _ => {},
        }
        Some(())
    }

    fn visit_class(&mut self, lexer: &mut Lexer<'s>, start: Pos, end: Pos) -> (r: Option<()>)
        requires
            old(self).inv_for(old(lexer).input()),
            old(lexer).wf(),
            start <= old(lexer).total(),
            end <= old(lexer).total(),
        ensures
            *final(lexer) == *old(lexer),
            old(self).scoping() is None ==> r is Some && *final(self) == *old(self),
            old(self).scoping() is Some && !is_str_range(old(lexer).input(), start as int, end as int) ==> r is None && *final(self) == *old(self),
            old(self).scoping() is Some && is_str_range(old(lexer).input(), start as int, end as int) && old(lexer).input().spec_bytes().subrange(start as int, end as int) == ".".spec_bytes() ==> r is Some && final(self).dependencies() == old(self).dependencies() && final(self).warnings() == old(self).warnings().push(final(self).warnings().last()) && final(self).warnings().last().range == (Range { start, end }) && final(self).warnings().last().kind is Unexpected,
            old(self).scoping() matches Some(m) ==> (is_str_range(old(lexer).input(), start as int, end as int) && old(lexer).input().spec_bytes().subrange(start as int, end as int) != ".".spec_bytes() ==> {
                &&& final(self).warnings() == old(self).warnings()
                &&& (m.current == Mode::Local || m.current == Mode::Pure) ==> (final(self).dependencies() == old(self).dependencies().push(final(self).dependencies().last()) && (final(self).dependencies().last() matches Dependency::LocalClass { name, range, explicit } && name.spec_bytes() == old(lexer).input().spec_bytes().subrange(start as int, end as int) && range == (Range { start, end }) && explicit == (m.inside_mode_function > 0 || m.inside_mode_class > 0)))
                &&& !(m.current == Mode::Local || m.current == Mode::Pure) ==> r is Some && *final(self) == *old(self)
            }),
            final(self).inv_for(final(lexer).input()),
            final(self).frame_of() == old(self).frame_of(),
            final(lexer).advanced_from(*old(lexer)),
    {
        let ghost input = lexer.input().spec_bytes();
        let (local, explicit, pure) = match &self.mode_data {
            Some(mode_data) => (
                mode_data.is_current_local_mode(),
                mode_data.is_mode_explicit(),
                mode_data.is_pure_mode(),
            ),
            None => return Some(()),
        };
        let name = lexer.slice(start, end)?;
        if str_eq(name, ".") {
            self.warn(
                Ghost(input),
                Warning {
                    range: Range::new(start, end),
                    kind: WarningKind::Unexpected { message: "Invalid class selector syntax" },
                },
            );
            return Some(());
        }
        if local {
            self.report(
                Ghost(input),
                Dependency::LocalClass { name, range: Range::new(start, end), explicit },
            );
            let top_level = self.block_nesting_level == 0;
            if let Some(mode_data) = &mut self.mode_data {
                if top_level {
                    mode_data.composes_local_classes.find_local_class(start.checked_add(1)?, end);
                }
                if pure {
                    mode_data.pure_global = None;
                }
            }
        }
        Some(())
    }

    fn visit_id(&mut self, lexer: &mut Lexer<'s>, start: Pos, end: Pos) -> (r: Option<()>)
        requires
            old(self).inv_for(old(lexer).input()),
            old(lexer).wf(),
            start <= old(lexer).total(),
            end <= old(lexer).total(),
        ensures
            *final(lexer) == *old(lexer),
            old(self).scoping() is None ==> r is Some && *final(self) == *old(self),
            old(self).scoping() is Some && !is_str_range(old(lexer).input(), start as int, end as int) ==> r is None && *final(self) == *old(self),
            old(self).scoping() is Some && is_str_range(old(lexer).input(), start as int, end as int) && old(lexer).input().spec_bytes().subrange(start as int, end as int) == "#".spec_bytes() ==> r is Some && final(self).dependencies() == old(self).dependencies() && final(self).warnings() == old(self).warnings().push(final(self).warnings().last()) && final(self).warnings().last().range == (Range { start, end }) && final(self).warnings().last().kind is Unexpected,
            old(self).scoping() matches Some(m) ==> (is_str_range(old(lexer).input(), start as int, end as int) && old(lexer).input().spec_bytes().subrange(start as int, end as int) != "#".spec_bytes() ==> {
                &&& final(self).warnings() == old(self).warnings()
                &&& (m.current == Mode::Local || m.current == Mode::Pure) ==> (final(self).dependencies() == old(self).dependencies().push(final(self).dependencies().last()) && (final(self).dependencies().last() matches Dependency::LocalId { name, range, explicit } && name.spec_bytes() == old(lexer).input().spec_bytes().subrange(start as int, end as int) && range == (Range { start, end }) && explicit == (m.inside_mode_function > 0 || m.inside_mode_class > 0)))
                &&& !(m.current == Mode::Local || m.current == Mode::Pure) ==> r is Some && *final(self) == *old(self)
            }),
            final(self).inv_for(final(lexer).input()),
            final(self).frame_of() == old(self).frame_of(),
            final(lexer).advanced_from(*old(lexer)),
    {
        let ghost input = lexer.input().spec_bytes();
        let (local, explicit, pure) = match &self.mode_data {
            Some(mode_data) => (
                mode_data.is_current_local_mode(),
                mode_data.is_mode_explicit(),
                mode_data.is_pure_mode(),
            ),
            None => return Some(()),
        };
        let name = lexer.slice(start, end)?;
        if str_eq(name, "#") {
            self.warn(
                Ghost(input),
                Warning {
                    range: Range::new(start, end),
                    kind: WarningKind::Unexpected { message: "Invalid id selector syntax" },
                },
            );
            return Some(());
        }
        if local {
            self.report(
                Ghost(input),
                Dependency::LocalId { name, range: Range::new(start, end), explicit },
            );
            let top_level = self.block_nesting_level == 0;
            if let Some(mode_data) = &mut self.mode_data {
                if top_level {
                    mode_data.composes_local_classes.invalidate();
                }
                if pure {
                    mode_data.pure_global = None;
                }
            }
        }
        Some(())
    }

    #[verifier::spinoff_prover]
    #[verifier::rlimit(50)]
    fn visit_left_curly_bracket(&mut self, lexer: &mut Lexer<'s>, start: Pos, end: Pos) -> (r: Option<()>)
        requires
            old(self).inv_for(old(lexer).input()),
            old(lexer).wf(),
            start <= old(lexer).total(),
            end <= old(lexer).total(),
        ensures
            !(old(self).current_scope() is TopLevel) && !(old(self).current_scope() is InBlock) ==> r is Some && *final(self) == *old(self) && *final(lexer) == *old(lexer),
            old(self).current_scope() is TopLevel ==> final(self).current_scope() is InBlock && !final(self).imports_allowed(),
            old(self).current_scope() is InBlock ==> final(self).current_scope() is InBlock && final(self).nesting() == (if old(self).nesting() < u32::MAX { old(self).nesting() + 1 } else { old(self).nesting() as int }),
            old(self).scoping() is None ==> r is Some && *final(lexer) == *old(lexer) && final(self).dependencies() == old(self).dependencies() && final(self).warnings() == old(self).warnings() && final(self).balanced_items() == old(self).balanced_items(),
            old(self).scoping() is None && old(self).current_scope() is TopLevel ==> final(self).nesting() == 1,
            final(self).inv_for(final(lexer).input()),
            final(self).frame_of() == old(self).frame_of(),
            final(lexer).advanced_from(*old(lexer)),
    {
        let ghost input = lexer.input().spec_bytes();
        match self.scope {
            Scope::TopLevel => {
                self.allow_import_at_rule = false;
                self.scope = Scope::InBlock;
                let after_at_keyword = match &self.mode_data {
                    Some(mode_data) => matches!(
                        mode_data.composes_local_classes.is_single,
                        SingleLocalClass::AtKeyword
                    ),
                    None => false,
                };
                if !after_at_keyword {
                    self.block_nesting_level = 1;
                }
            },
            Scope::InBlock => {
                self.block_nesting_level = self.block_nesting_level.saturating_add(1);
            },
            _ => return Some(()),
        }
        let (pure_start, inconsistent_start) = match &self.mode_data {
            Some(mode_data) => (
                if mode_data.is_pure_mode() {
                    mode_data.pure_global
                } else {
                    None
                },
                if mode_data.is_current_local_mode() {
                    mode_data.resulting_global
                } else {
                    None
                },
            ),
            None => return Some(()),
        };
        if let Some(pure_global_start) = pure_start {
            self.warn(
                Ghost(input),
                Warning {
                    range: Range::new(pure_global_start, start),
                    kind: WarningKind::NotPure {
                        message: "Selector is not pure (pure selectors must contain at least one local class or id)",
                    },
                },
            );
        }
        if let Some(resulting_global_start) = inconsistent_start {
            self.warn(
                Ghost(input),
                Warning {
                    range: Range::new(resulting_global_start, start),
                    kind: WarningKind::InconsistentModeResult,
                },
            );
        }
        if let Some(mode_data) = &mut self.mode_data {
            mode_data.resulting_global = None;
        }
        self.bal_update_property_mode(Ghost(input));
        self.bal_pop_mode_pseudo_class(Ghost(input));
        self.is_next_rule_prelude = self.is_next_nested_syntax(lexer)?;
        if self.is_next_rule_prelude && self.block_nesting_level == 0 {
            if let Some(mode_data) = &mut self.mode_data {
                mode_data.composes_local_classes.reset_to_initial();
            }
        }
        Some(())
    }

    fn visit_right_curly_bracket(&mut self, lexer: &mut Lexer<'s>, start: Pos, end: Pos) -> (r: Option<()>)
        requires
            old(self).inv_for(old(lexer).input()),
            old(lexer).wf(),
            start <= old(lexer).total(),
            end <= old(lexer).total(),
        ensures
            !(old(self).current_scope() is InBlock) ==> r is Some && *final(self) == *old(self) && *final(lexer) == *old(lexer),
            old(self).current_scope() is InBlock && r is Some ==> final(self).nesting() == (if old(self).nesting() > 0 { old(self).nesting() - 1 } else { 0 }) && (final(self).nesting() == 0 ==> final(self).current_scope() is TopLevel) && (final(self).nesting() > 0 ==> final(self).current_scope() is InBlock),
            old(self).scoping() is None ==> r is Some && *final(lexer) == *old(lexer) && final(self).dependencies() == old(self).dependencies() && final(self).warnings() == old(self).warnings() && final(self).balanced_items() == old(self).balanced_items(),
            final(self).inv_for(final(lexer).input()),
            final(self).frame_of() == old(self).frame_of(),
            final(lexer).advanced_from(*old(lexer)),
    {
        if matches!(self.scope, Scope::InBlock) {
            let mut property_local = false;
            if let Some(mode_data) = &mut self.mode_data {
                mode_data.pure_global = Some(end);
                property_local = mode_data.is_property_local_mode();
            }
            if property_local {
                self.finish_properties(lexer)?;
            }
            if self.block_nesting_level > 0 {
                self.block_nesting_level = self.block_nesting_level - 1;
            }
            if self.block_nesting_level == 0 {
                self.scope = Scope::TopLevel;
                if let Some(mode_data) = &mut self.mode_data {
                    self.is_next_rule_prelude = true;
                    mode_data.composes_local_classes.reset_to_initial();
                }
            } else if self.mode_data.is_some() {
                self.is_next_rule_prelude = self.is_next_nested_syntax(lexer)?;
            }
        }
        Some(())
    }

    fn visit_pseudo_function(&mut self, lexer: &mut Lexer<'s>, start: Pos, end: Pos) -> (r: Option<()>)
        requires
            old(self).inv_for(old(lexer).input()),
            old(lexer).wf(),
            start <= old(lexer).total(),
            end <= old(lexer).total(),
        ensures
            old(self).scoping() is Some && is_str_range(old(lexer).input(), start as int, end as int) && !bytes_eq_ignore_ascii_case(old(lexer).input().spec_bytes().subrange(start as int, end as int), ":import(".spec_bytes()) && (bytes_eq_ignore_ascii_case(old(lexer).input().spec_bytes().subrange(start as int, end as int), ":global(".spec_bytes()) || bytes_eq_ignore_ascii_case(old(lexer).input().spec_bytes().subrange(start as int, end as int), ":local(".spec_bytes())) ==> final(lexer).cur_char() is None || final(lexer).peek_char() is None || (r is Some && (final(lexer).cur_char() matches Some(c) && !spec_is_white_space(c)) && (old(self).balanced_items().len() < MAX_LIST_LEN ==> final(self).balanced_items() == old(self).balanced_items().push((BalancedItem { kind: spec_balanced_kind(old(lexer).input().spec_bytes().subrange(start as int, end as int)), range: Range { start, end } }))) && final(self).dependencies() == old(self).dependencies().push(final(self).dependencies().last()) && (final(self).dependencies().last() matches Dependency::Replace { content, range } && content.spec_bytes().len() == 0 && range == (Range { start, end: final(lexer).cur_position().unwrap() }))),
            !is_str_range(old(lexer).input(), start as int, end as int) ==> r is None && *final(self) == *old(self) && *final(lexer) == *old(lexer),
            old(self).scoping() is None && is_str_range(old(lexer).input(), start as int, end as int) ==> r is Some && *final(lexer) == *old(lexer) && final(self).dependencies() == old(self).dependencies() && final(self).warnings() == old(self).warnings() && (old(self).balanced_items().len() < MAX_LIST_LEN ==> final(self).balanced_items() == old(self).balanced_items().push((BalancedItem { kind: spec_balanced_kind(old(lexer).input().spec_bytes().subrange(start as int, end as int)), range: Range { start, end } }))),
            final(self).inv_for(final(lexer).input()),
            final(self).frame_of() == old(self).frame_of(),
            final(lexer).advanced_from(*old(lexer)),
    {
        let ghost input = lexer.input().spec_bytes();
        let name = lexer.slice(start, end)?;
        if self.mode_data.is_some() {
            if eq_ignore_ascii_case(name, ":import(") {
                let _ = self.lex_icss_import(lexer);
                let replace_end = lexer.cur_pos()?;
                let content = empty_text();
                self.report(
                    Ghost(input),
                    Dependency::Replace { content, range: Range::new(start, replace_end) },
                );
                return Some(());
            }
            if eq_ignore_ascii_case(name, ":global(") || eq_ignore_ascii_case(name, ":local(") {
                let inside = match &self.mode_data {
                    Some(mode_data) => mode_data.is_inside_mode_function(),
                    None => false,
                };
                if inside {
                    let pseudo = lexer.slice(start, end)?;
                    self.warn(
                        Ghost(input),
                        Warning {
                            range: Range::new(start, end),
                            kind: WarningKind::ExpectedNotInside { pseudo },
                        },
                    );
                }
                lexer.consume_white_space_and_comments()?;
                let replace_end = lexer.cur_pos()?;
                let content = empty_text();
                self.report(
                    Ghost(input),
                    Dependency::Replace { content, range: Range::new(start, replace_end) },
                );
            } else if self.block_nesting_level == 0 {
                if let Some(mode_data) = &mut self.mode_data {
                    mode_data.composes_local_classes.invalidate();
                }
            }
        }
        self.bal_push(Ghost(input), BalancedItem::new(name, start, end));
        Some(())
    }

    fn visit_pseudo_class(&mut self, lexer: &mut Lexer<'s>, start: Pos, end: Pos) -> (r: Option<()>)
        requires
            old(self).inv_for(old(lexer).input()),
            old(lexer).wf(),
            start <= old(lexer).total(),
            end <= old(lexer).total(),
        ensures
            old(self).scoping() is Some && is_str_range(old(lexer).input(), start as int, end as int) && (bytes_eq_ignore_ascii_case(old(lexer).input().spec_bytes().subrange(start as int, end as int), ":global".spec_bytes()) || bytes_eq_ignore_ascii_case(old(lexer).input().spec_bytes().subrange(start as int, end as int), ":local".spec_bytes())) ==> final(lexer).cur_char() is None || final(lexer).peek_char() is None || (r is Some && (final(lexer).cur_char() matches Some(c) && !spec_is_white_space(c)) && (old(self).balanced_items().len() < MAX_LIST_LEN ==> final(self).balanced_items() == old(self).balanced_items().push((BalancedItem { kind: spec_balanced_kind(old(lexer).input().spec_bytes().subrange(start as int, end as int)), range: Range { start, end } }))) && final(self).dependencies() == old(self).dependencies().push(final(self).dependencies().last()) && (final(self).dependencies().last() matches Dependency::Replace { content, range } && content.spec_bytes().len() == 0 && range == (Range { start, end: final(lexer).cur_position().unwrap() }))),
            old(self).scoping() is None ==> r is Some && *final(self) == *old(self) && *final(lexer) == *old(lexer),
            old(self).scoping() is Some && !is_str_range(old(lexer).input(), start as int, end as int) ==> r is None && *final(self) == *old(self) && *final(lexer) == *old(lexer),
            old(self).scoping() is Some && is_str_range(old(lexer).input(), start as int, end as int) && !bytes_eq_ignore_ascii_case(old(lexer).input().spec_bytes().subrange(start as int, end as int), ":global".spec_bytes()) && !bytes_eq_ignore_ascii_case(old(lexer).input().spec_bytes().subrange(start as int, end as int), ":local".spec_bytes()) && !(old(self).current_scope() is TopLevel && bytes_eq_ignore_ascii_case(old(lexer).input().spec_bytes().subrange(start as int, end as int), ":export".spec_bytes())) ==> r is Some && *final(lexer) == *old(lexer) && final(self).dependencies() == old(self).dependencies() && final(self).warnings() == old(self).warnings() && final(self).balanced_items() == old(self).balanced_items(),
            old(self).scoping() is Some && is_str_range(old(lexer).input(), start as int, end as int) && (bytes_eq_ignore_ascii_case(old(lexer).input().spec_bytes().subrange(start as int, end as int), ":global".spec_bytes()) || bytes_eq_ignore_ascii_case(old(lexer).input().spec_bytes().subrange(start as int, end as int), ":local".spec_bytes())) && r is Some ==> final(self).dependencies() == old(self).dependencies().push(final(self).dependencies().last()) && (final(self).dependencies().last() matches Dependency::Replace { content, range } && content.spec_bytes().len() == 0 && range.start == start),
            final(self).inv_for(final(lexer).input()),
            final(self).frame_of() == old(self).frame_of(),
            final(lexer).advanced_from(*old(lexer)),
    {
        let ghost input = lexer.input().spec_bytes();
        let inside = match &self.mode_data {
            Some(mode_data) => mode_data.is_inside_mode_function(),
            None => return Some(()),
        };
        let name = lexer.slice(start, end)?;
        if eq_ignore_ascii_case(name, ":global") || eq_ignore_ascii_case(name, ":local") {
            if inside {
                let pseudo = lexer.slice(start, end)?;
                self.warn(
                    Ghost(input),
                    Warning { range: Range::new(start, end), kind: WarningKind::ExpectedNotInside { pseudo } },
                );
            }
            let should_have_after_white_space = should_have_after_white_space(
                lexer.value().as_bytes(),
                start as usize,
            );
            let has_after_white_space = self.has_after_white_space(lexer)?;
            let c = lexer.cur()?;
            if should_have_after_white_space && !(has_after_white_space || c == C_RIGHT_PARENTHESIS
                || c == C_LEFT_CURLY || c == C_COMMA) {
                self.warn(
                    Ghost(input),
                    Warning {
                        range: Range::new(start, end),
                        kind: WarningKind::MissingWhitespace { surrounding: "trailing" },
                    },
                );
            }
            if !should_have_after_white_space && has_after_white_space {
                self.warn(
                    Ghost(input),
                    Warning {
                        range: Range::new(start, end),
                        kind: WarningKind::MissingWhitespace { surrounding: "leading" },
                    },
                );
            }
            self.bal_push(Ghost(input), BalancedItem::new(name, start, end));
            let replace_end = lexer.cur_pos()?;
            let content = empty_text();
            self.report(
                Ghost(input),
                Dependency::Replace { content, range: Range::new(start, replace_end) },
            );
            return Some(());
        }
        if matches!(self.scope, Scope::TopLevel) && eq_ignore_ascii_case(name, ":export") {
            self.lex_icss_export(lexer)?;
            let replace_end = lexer.cur_pos()?;
            let content = empty_text();
            self.report(
                Ghost(input),
                Dependency::Replace { content, range: Range::new(start, replace_end) },
            );
            return Some(());
        }
        if self.block_nesting_level == 0 {
            if let Some(mode_data) = &mut self.mode_data {
                mode_data.composes_local_classes.invalidate();
            }
        }
        Some(())
    }

    fn visit_comma(&mut self, lexer: &mut Lexer<'s>, start: Pos, end: Pos) -> (r: Option<()>)
        requires
            old(self).inv_for(old(lexer).input()),
            old(lexer).wf(),
            start <= old(lexer).total(),
            end <= old(lexer).total(),
        ensures
            old(self).scoping() is None ==> r is Some && *final(self) == *old(self) && *final(lexer) == *old(lexer),
            !(old(self).current_scope() is InBlock) ==> final(self).dependencies() == old(self).dependencies() && *final(lexer) == *old(lexer),
            final(self).inv_for(final(lexer).input()),
            final(self).frame_of() == old(self).frame_of(),
            final(lexer).advanced_from(*old(lexer)),
    {
        let ghost input = lexer.input().spec_bytes();
        let pure_start = match &self.mode_data {
            Some(mode_data) => if mode_data.is_pure_mode() {
                mode_data.pure_global
            } else {
                None
            },
            None => return Some(()),
        };
        if let Some(pure_global_start) = pure_start {
            self.warn(
                Ghost(input),
                Warning {
                    range: Range::new(pure_global_start, start),
                    kind: WarningKind::NotPure {
                        message: "Selector is not pure (pure selectors must contain at least one local class or id)",
                    },
                },
            );
        }
        let top_level = self.block_nesting_level == 0;
        let mut inconsistent_start: Option<Pos> = None;
        if let Some(mode_data) = &mut self.mode_data {
            mode_data.pure_global = Some(end);
            if top_level {
                mode_data.composes_local_classes.find_comma(lexer)?;
            }
            if mode_data.is_current_local_mode() {
                inconsistent_start = mode_data.resulting_global;
            }
        }
        if let Some(resulting_global_start) = inconsistent_start {
            self.warn(
                Ghost(input),
                Warning {
                    range: Range::new(resulting_global_start, start),
                    kind: WarningKind::InconsistentModeResult,
                },
            );
        }
        if self.balanced.len() == 1 {
            if let Some(last) = self.balanced.last() {
                let is_local_class = matches!(last.kind, BalancedItemKind::LocalClass);
                let is_global_class = matches!(last.kind, BalancedItemKind::GlobalClass);
                if is_local_class || is_global_class {
                    self.bal_pop_mode_pseudo_class(Ghost(input));
                    if let Some(mode_data) = &mut self.mode_data {
                        if mode_data.resulting_global.is_none() && is_global_class {
                            mode_data.resulting_global = Some(start);
                        }
                    }
                }
            }
        }
        let property_local = match &self.mode_data {
            Some(mode_data) => mode_data.is_property_local_mode(),
            None => false,
        };
        if matches!(self.scope, Scope::InBlock) && property_local && self.in_animation_property.is_some() {
            self.handle_local_keyframes_dependency(lexer)?;
        }
        Some(())
    }
}

impl<'s, D: HandleDependency<'s>, W: HandleWarning<'s>> Visitor<'s> for LexDependencies<'s, D, W> {
    type Frame = ((Seq<Dependency<'s>>, Seq<Warning<'s>>, bool), Mode);

    closed spec fn inv(&self, input: &'s str) -> bool {
        &&& self.inv_for(input)
        &&& self.at_boundary()
        &&& self.untouched@ ==> self.fresh_state()
    }

    closed spec fn handled(&self, t: Token, input: &'s str) -> bool {
        namespace_warned(self.warnings(), t, input)
    }

    closed spec fn halted(&self) -> bool {
        self.stopped@
    }

    closed spec fn pristine(&self) -> bool {
        self.untouched@
    }

    closed spec fn selecting(&self) -> bool {
        self.is_next_rule_prelude
    }

    closed spec fn first_handled(&self, t: Token, input: &'s str) -> bool {
        first_selector_reported(self.dependencies(), self.initial_mode@, t, input)
    }

    closed spec fn frame(&self) -> Self::Frame {
        (self.origin(), self.initial_mode@)
    }

    fn function(&mut self, lexer: &mut Lexer<'s>, start: Pos, end: Pos) -> (r: Option<()>)
        ensures
            old(self).scoping() is None ==> *final(lexer) == *old(lexer),
            !is_str_range(old(lexer).input(), start as int, end as int) ==> r is None && final(self).same_state(old(self)) && *final(lexer) == *old(lexer),
            old(self).scoping() is None && is_str_range(old(lexer).input(), start as int, end as int) ==> {
                &&& r is Some
                &&& final(self).dependencies() == old(self).dependencies()
                &&& final(self).warnings() == old(self).warnings()
                &&& old(self).balanced_items().len() < MAX_LIST_LEN ==> final(self).balanced_items() == old(self).balanced_items().push((BalancedItem { kind: spec_balanced_kind(old(lexer).input().spec_bytes().subrange(start as int, end as int)), range: Range { start, end } }))
            },
    {
        let r = self.visit_function(lexer, start, end);
        proof {
            self.warnings_before@ = self.handle_warning.warnings_handled();
            self.dependencies_mark@ = self.handle_dependency.dependencies_handled();
            self.untouched@ = false;
            if r is None {
                self.stopped@ = true;
            }
            assert forall|t: Token| old(self).handled(t, old(lexer).input()) implies #[trigger] self.handled(t, old(lexer).input()) by {
                lemma_namespace_warned_grows(old(self).warnings(), self.warnings(), t, old(lexer).input());
            }
            assert forall|t: Token| old(self).first_handled(t, old(lexer).input()) implies #[trigger] self.first_handled(t, old(lexer).input()) by {
                lemma_first_selector_reported_grows(old(self).dependencies(), self.dependencies(), self.initial_mode@, t, old(lexer).input());
            }
        }
        r
    }

    fn ident(&mut self, lexer: &mut Lexer<'s>, start: Pos, end: Pos) -> (r: Option<()>)
        ensures
            old(self).current_scope() is InBlock ==> (old(self).scoping() matches Some(m) ==> ((!(m.property == Mode::Local || m.property == Mode::Pure) || old(self).no_open_property()) && is_str_range(old(lexer).input(), start as int, end as int) && (bytes_eq_ignore_ascii_case(old(lexer).input().spec_bytes().subrange(start as int, end as int), "composes".spec_bytes()) || bytes_eq_ignore_ascii_case(old(lexer).input().spec_bytes().subrange(start as int, end as int), "compose-with".spec_bytes())) && old(self).nesting() == 1 && old(self).composes_ready(old(lexer).input()) ==> (forall|k: int| #![trigger white_space_up_to(old(lexer).text(), old(lexer).index(), k)] white_space_up_to(old(lexer).text(), old(lexer).index(), k) && old(lexer).text()[k] == ':' ==> (r is Some && final(self).warnings().len() == old(self).warnings().len() ==> final(self).dependencies().len() > 0 && (final(self).dependencies().last() matches Dependency::Replace { content, range } && content.spec_bytes().len() == 0 && range.start == start))))),
            old(self).current_scope() is InBlock ==> (old(self).scoping() matches Some(m) ==> ((m.property == Mode::Local || m.property == Mode::Pure) && old(self).no_open_property() && is_str_range(old(lexer).input(), start as int, end as int) && (2 <= end - start && old(lexer).input().spec_bytes().subrange(start as int, end as int).subrange(0, 2) == "--".spec_bytes()) && is_str_range(old(lexer).input(), start + 2, end as int) && old(lexer).cur_is(':') ==> r is Some && final(self).dependencies() == old(self).dependencies().push(final(self).dependencies().last()) && (final(self).dependencies().last() matches Dependency::LocalVarDecl { name, range } && range == (Range { start, end }) && name.spec_bytes() == old(lexer).input().spec_bytes().subrange(start + 2, end as int)))),
            old(self).current_scope() is InBlock ==> (old(self).scoping() matches Some(m) ==> ((m.property == Mode::Local || m.property == Mode::Pure) && old(self).no_open_property() && is_str_range(old(lexer).input(), start as int, end as int) && !(2 <= end - start && old(lexer).input().spec_bytes().subrange(start as int, end as int).subrange(0, 2) == "--".spec_bytes()) && (bytes_eq_ignore_ascii_case(old(lexer).input().spec_bytes().subrange(start as int, end as int), "animation".spec_bytes()) || bytes_eq_ignore_ascii_case(old(lexer).input().spec_bytes().subrange(start as int, end as int), "animation-name".spec_bytes())) ==> r is Some && final(self).reading_animation() && final(self).dependencies() == old(self).dependencies() && final(self).warnings() == old(self).warnings())),
            old(self).current_scope() is InBlock ==> (old(self).scoping() matches Some(m) ==> ((!(m.property == Mode::Local || m.property == Mode::Pure) || old(self).no_open_property()) && is_str_range(old(lexer).input(), start as int, end as int) && (bytes_eq_ignore_ascii_case(old(lexer).input().spec_bytes().subrange(start as int, end as int), "composes".spec_bytes()) || bytes_eq_ignore_ascii_case(old(lexer).input().spec_bytes().subrange(start as int, end as int), "compose-with".spec_bytes())) && old(self).nesting() != 1 ==> r is Some && final(self).dependencies() == old(self).dependencies() && final(self).warnings() == old(self).warnings().push(final(self).warnings().last()) && final(self).warnings().last().kind is UnexpectedComposition && final(self).warnings().last().range == (Range { start, end }))),
            old(self).current_scope() is InBlock ==> (old(self).scoping() matches Some(m) ==> ((!(m.property == Mode::Local || m.property == Mode::Pure) || old(self).no_open_property()) && is_str_range(old(lexer).input(), start as int, end as int) && (bytes_eq_ignore_ascii_case(old(lexer).input().spec_bytes().subrange(start as int, end as int), "composes".spec_bytes()) || bytes_eq_ignore_ascii_case(old(lexer).input().spec_bytes().subrange(start as int, end as int), "compose-with".spec_bytes())) && old(self).nesting() == 1 && !(m.composes_local_classes.is_single is Single) ==> r is Some && final(self).dependencies() == old(self).dependencies() && final(self).warnings() == old(self).warnings().push(final(self).warnings().last()) && final(self).warnings().last().kind is UnexpectedComposition && final(self).warnings().last().range == (Range { start, end }))),
            old(self).current_scope() is InBlock && old(self).scoping() is None ==> r is Some && final(self).same_state(old(self)) && *final(lexer) == *old(lexer),
            old(self).current_scope() is AtImportInvalid || old(self).current_scope() is AtNamespaceInvalid ==> r is Some && final(self).same_state(old(self)) && *final(lexer) == *old(lexer),
            old(self).current_scope() is TopLevel ==> r is Some && *final(lexer) == *old(lexer) && final(self).dependencies() == old(self).dependencies() && final(self).warnings() == old(self).warnings() && final(self).balanced_items() == old(self).balanced_items() && final(self).current_scope() == old(self).current_scope(),
            old(self).current_scope() matches Scope::InAtImport(d) ==> {
                &&& *final(lexer) == *old(lexer)
                &&& final(self).dependencies() == old(self).dependencies() && final(self).warnings() == old(self).warnings()
                &&& (r is Some <==> is_str_range(old(lexer).input(), start as int, end as int))
                &&& r is Some && bytes_eq_ignore_ascii_case(old(lexer).input().spec_bytes().subrange(start as int, end as int), "layer".spec_bytes()) ==> (final(self).current_scope() matches Scope::InAtImport(d2) && d2.start == d.start && d2.url == d.url && d2.url_range == d.url_range && d2.supports == d.supports && (d2.layer matches ImportDataLayer::EndLayer { value, range } && value.spec_bytes().len() == 0 && range == (Range { start, end })))
                &&& !bytes_eq_ignore_ascii_case(old(lexer).input().spec_bytes().subrange(start as int, end as int), "layer".spec_bytes()) ==> final(self).current_scope() == old(self).current_scope()
            },
    {
        let r = self.visit_ident(lexer, start, end);
        proof {
            self.warnings_before@ = self.handle_warning.warnings_handled();
            self.dependencies_mark@ = self.handle_dependency.dependencies_handled();
            self.untouched@ = false;
            if r is None {
                self.stopped@ = true;
            }
            assert forall|t: Token| old(self).handled(t, old(lexer).input()) implies #[trigger] self.handled(t, old(lexer).input()) by {
                lemma_namespace_warned_grows(old(self).warnings(), self.warnings(), t, old(lexer).input());
            }
            assert forall|t: Token| old(self).first_handled(t, old(lexer).input()) implies #[trigger] self.first_handled(t, old(lexer).input()) by {
                lemma_first_selector_reported_grows(old(self).dependencies(), self.dependencies(), self.initial_mode@, t, old(lexer).input());
            }
        }
        r
    }

    fn url(
        &mut self,
        lexer: &mut Lexer<'s>,
        start: Pos,
        end: Pos,
        content_start: Pos,
        content_end: Pos,
    ) -> (r: Option<()>)
        ensures
            *final(lexer) == *old(lexer),
            !(old(self).current_scope() is InAtImport) ==> (r is Some <==> is_str_range(old(lexer).input(), content_start as int, content_end as int)),
            !is_str_range(old(lexer).input(), content_start as int, content_end as int) ==> r is None && final(self).same_state(old(self)),
            !(old(self).current_scope() is InBlock) && !(old(self).current_scope() is InAtImport) ==> final(self).same_state(old(self)),
            old(self).current_scope() is InBlock && r is Some ==> {
                &&& final(self).warnings() == old(self).warnings()
                &&& final(self).dependencies() == old(self).dependencies().push(final(self).dependencies().last())
                &&& final(self).dependencies().last() matches Dependency::Url { request, range, kind } && request.spec_bytes() == old(lexer).input().spec_bytes().subrange(content_start as int, content_end as int) && range == (Range { start, end }) && kind == UrlRangeKind::Function
            },
            old(self).current_scope() is InAtImport ==> final(self).dependencies() == old(self).dependencies(),
    {
        let r = self.visit_url(lexer, start, end, content_start, content_end);
        proof {
            self.warnings_before@ = self.handle_warning.warnings_handled();
            self.dependencies_mark@ = self.handle_dependency.dependencies_handled();
            self.untouched@ = false;
            if r is None {
                self.stopped@ = true;
            }
            assert forall|t: Token| old(self).handled(t, old(lexer).input()) implies #[trigger] self.handled(t, old(lexer).input()) by {
                lemma_namespace_warned_grows(old(self).warnings(), self.warnings(), t, old(lexer).input());
            }
            assert forall|t: Token| old(self).first_handled(t, old(lexer).input()) implies #[trigger] self.first_handled(t, old(lexer).input()) by {
                lemma_first_selector_reported_grows(old(self).dependencies(), self.dependencies(), self.initial_mode@, t, old(lexer).input());
            }
        }
        r
    }

    fn string(&mut self, lexer: &mut Lexer<'s>, start: Pos, end: Pos) -> (r: Option<()>)
        ensures
            *final(lexer) == *old(lexer),
            !(old(self).current_scope() is InBlock) && !(old(self).current_scope() is InAtImport) ==> r is Some && final(self).same_state(old(self)),
            old(self).current_scope() is InBlock && (old(self).balanced_items().len() == 0 || !(old(self).balanced_items().last().kind is Url || old(self).balanced_items().last().kind is ImageSet)) ==> r is Some && final(self).same_state(old(self)),
            old(self).current_scope() is InBlock && old(self).balanced_items().len() > 0 && (old(self).balanced_items().last().kind is Url || old(self).balanced_items().last().kind is ImageSet) ==> {
                &&& (r is Some <==> is_str_range(old(lexer).input(), start + 1, end - 1))
                &&& final(self).warnings() == old(self).warnings()
                &&& r is None ==> final(self).same_state(old(self))
                &&& r is Some ==> (final(self).dependencies() == old(self).dependencies().push(final(self).dependencies().last()) && (final(self).dependencies().last() matches Dependency::Url { request, range, kind } && request.spec_bytes() == old(lexer).input().spec_bytes().subrange(start + 1, end - 1) && range == (Range { start, end }) && kind == (if old(self).balanced_items().last().kind is Url { UrlRangeKind::String } else { UrlRangeKind::Function })))
            },
            old(self).current_scope() is InAtImport ==> final(self).dependencies() == old(self).dependencies(),
    {
        let r = self.visit_string(lexer, start, end);
        proof {
            self.warnings_before@ = self.handle_warning.warnings_handled();
            self.dependencies_mark@ = self.handle_dependency.dependencies_handled();
            self.untouched@ = false;
            if r is None {
                self.stopped@ = true;
            }
            assert forall|t: Token| old(self).handled(t, old(lexer).input()) implies #[trigger] self.handled(t, old(lexer).input()) by {
                lemma_namespace_warned_grows(old(self).warnings(), self.warnings(), t, old(lexer).input());
            }
            assert forall|t: Token| old(self).first_handled(t, old(lexer).input()) implies #[trigger] self.first_handled(t, old(lexer).input()) by {
                lemma_first_selector_reported_grows(old(self).dependencies(), self.dependencies(), self.initial_mode@, t, old(lexer).input());
            }
        }
        r
    }

    fn is_selector(&mut self, lexer: &mut Lexer<'s>) -> (r: Option<bool>)
        ensures
            r == Some(old(self).next_is_rule_prelude()),
            final(self).same_state(old(self)),
            *final(lexer) == *old(lexer),
    {
        Some(self.is_next_rule_prelude)
    }

    fn id(&mut self, lexer: &mut Lexer<'s>, start: Pos, end: Pos) -> (r: Option<()>)
        ensures
            *final(lexer) == *old(lexer),
            old(self).scoping() is None ==> r is Some && final(self).same_state(old(self)),
            old(self).scoping() is Some && !is_str_range(old(lexer).input(), start as int, end as int) ==> r is None && final(self).same_state(old(self)),
            old(self).scoping() is Some && is_str_range(old(lexer).input(), start as int, end as int) && old(lexer).input().spec_bytes().subrange(start as int, end as int) == "#".spec_bytes() ==> r is Some && final(self).dependencies() == old(self).dependencies() && final(self).warnings() == old(self).warnings().push(final(self).warnings().last()) && final(self).warnings().last().range == (Range { start, end }) && final(self).warnings().last().kind is Unexpected,
            old(self).scoping() matches Some(m) ==> (is_str_range(old(lexer).input(), start as int, end as int) && old(lexer).input().spec_bytes().subrange(start as int, end as int) != "#".spec_bytes() ==> {
                &&& final(self).warnings() == old(self).warnings()
                &&& (m.current == Mode::Local || m.current == Mode::Pure) ==> (final(self).dependencies() == old(self).dependencies().push(final(self).dependencies().last()) && (final(self).dependencies().last() matches Dependency::LocalId { name, range, explicit } && name.spec_bytes() == old(lexer).input().spec_bytes().subrange(start as int, end as int) && range == (Range { start, end }) && explicit == (m.inside_mode_function > 0 || m.inside_mode_class > 0)))
                &&& !(m.current == Mode::Local || m.current == Mode::Pure) ==> r is Some && final(self).same_state(old(self))
            }),
    {
        let r = self.visit_id(lexer, start, end);
        proof {
            self.warnings_before@ = self.handle_warning.warnings_handled();
            self.dependencies_mark@ = self.handle_dependency.dependencies_handled();
            self.untouched@ = false;
            if r is None {
                self.stopped@ = true;
            }
            assert forall|t: Token| old(self).handled(t, old(lexer).input()) implies #[trigger] self.handled(t, old(lexer).input()) by {
                lemma_namespace_warned_grows(old(self).warnings(), self.warnings(), t, old(lexer).input());
            }
            assert forall|t: Token| old(self).first_handled(t, old(lexer).input()) implies #[trigger] self.first_handled(t, old(lexer).input()) by {
                lemma_first_selector_reported_grows(old(self).dependencies(), self.dependencies(), self.initial_mode@, t, old(lexer).input());
            }
        }
        r
    }

    fn left_parenthesis(&mut self, lexer: &mut Lexer<'s>, start: Pos, end: Pos) -> (r: Option<()>)
        ensures
            r is Some,
            *final(lexer) == *old(lexer),
            old(self).balanced_items().len() < MAX_LIST_LEN ==> final(self).balanced_items() == old(self).balanced_items().push((BalancedItem { kind: BalancedItemKind::Other, range: Range { start, end } })),
            final(self).dependencies() == old(self).dependencies(),
            final(self).warnings() == old(self).warnings(),
            final(self).current_scope() == old(self).current_scope(),
    {
        let r = self.visit_left_parenthesis(lexer, start, end);
        proof {
            self.warnings_before@ = self.handle_warning.warnings_handled();
            self.dependencies_mark@ = self.handle_dependency.dependencies_handled();
            self.untouched@ = false;
            if r is None {
                self.stopped@ = true;
            }
            assert forall|t: Token| old(self).handled(t, old(lexer).input()) implies #[trigger] self.handled(t, old(lexer).input()) by {
                lemma_namespace_warned_grows(old(self).warnings(), self.warnings(), t, old(lexer).input());
            }
            assert forall|t: Token| old(self).first_handled(t, old(lexer).input()) implies #[trigger] self.first_handled(t, old(lexer).input()) by {
                lemma_first_selector_reported_grows(old(self).dependencies(), self.dependencies(), self.initial_mode@, t, old(lexer).input());
            }
        }
        r
    }

    fn right_parenthesis(&mut self, lexer: &mut Lexer<'s>, start: Pos, end: Pos) -> (r: Option<()>)
        ensures
            old(self).balanced_items().len() > 0 && !(old(self).current_scope() is InAtImport) && !old(self).balanced_items().last().kind.spec_is_mode_function() && !old(self).balanced_items().last().kind.spec_is_mode_class() ==> r is Some && final(self).dependencies() == old(self).dependencies() && final(self).warnings() == old(self).warnings() && final(self).balanced_items() == old(self).balanced_items().drop_last(),
            old(self).balanced_items().len() == 1 && old(self).balanced_items().last().kind.spec_is_mode_class() && !(old(self).current_scope() is InAtImport) ==> r is Some && final(self).balanced_items().len() == 0 && final(self).dependencies() == old(self).dependencies() && final(self).warnings() == old(self).warnings(),
            old(self).scoping() is Some && old(self).balanced_items().len() > 0 && old(self).balanced_items().last().kind.spec_is_mode_function() && r is Some ==> final(self).dependencies() == old(self).dependencies().push(final(self).dependencies().last()) && (final(self).dependencies().last() matches Dependency::Replace { content, range } && content.spec_bytes().len() == 0 && range.end == end && range.start <= start),
            old(self).current_scope() matches Scope::InAtImport(d) ==> (old(self).balanced_items().len() > 0 && !(d.supports is InSupports) && old(self).balanced_items().last().kind is Url && r is Some ==> (final(self).current_scope() matches Scope::InAtImport(d2) && d2.url_range == Some(Range { start: old(self).balanced_items().last().range.start, end }) && d2.url == d.url && d2.layer == d.layer && d2.supports == d.supports)),
            old(self).current_scope() matches Scope::InAtImport(d) ==> (old(self).balanced_items().len() > 0 && !(d.supports is InSupports) && old(self).balanced_items().last().kind is Layer && r is Some ==> (final(self).current_scope() matches Scope::InAtImport(d2) && d2.url == d.url && d2.url_range == d.url_range && d2.supports == d.supports && (d2.layer matches ImportDataLayer::EndLayer { value, range } && range == (Range { start: old(self).balanced_items().last().range.start, end }) && value.spec_bytes() == old(lexer).input().spec_bytes().subrange(old(self).balanced_items().last().range.end as int, end - 1)))),
            old(self).current_scope() matches Scope::InAtImport(d) ==> (old(self).balanced_items().len() > 0 && old(self).balanced_items().last().kind is Supports && r is Some ==> (final(self).current_scope() matches Scope::InAtImport(d2) && d2.url == d.url && d2.url_range == d.url_range && d2.layer == d.layer && (d2.supports matches ImportDataSupports::EndSupports { value, range } && range == (Range { start: old(self).balanced_items().last().range.start, end }) && value.spec_bytes() == old(lexer).input().spec_bytes().subrange(old(self).balanced_items().last().range.end as int, end - 1)))),
            *final(lexer) == *old(lexer),
            old(self).balanced_items().len() == 0 ==> r is Some && final(self).dependencies() == old(self).dependencies() && final(self).warnings() == old(self).warnings() && final(self).balanced_items() == old(self).balanced_items() && final(self).current_scope() == old(self).current_scope() && final(self).scoping() == old(self).scoping(),
            old(self).balanced_items().len() > 0 ==> final(self).balanced_items().len() < old(self).balanced_items().len() && final(self).balanced_items() == old(self).balanced_items().subrange(0, final(self).balanced_items().len() as int),
            old(self).scoping() is None ==> final(self).dependencies() == old(self).dependencies() && final(self).warnings() == old(self).warnings(),
    {
        let r = self.visit_right_parenthesis(lexer, start, end);
        proof {
            self.warnings_before@ = self.handle_warning.warnings_handled();
            self.dependencies_mark@ = self.handle_dependency.dependencies_handled();
            self.untouched@ = false;
            if r is None {
                self.stopped@ = true;
            }
            assert forall|t: Token| old(self).handled(t, old(lexer).input()) implies #[trigger] self.handled(t, old(lexer).input()) by {
                lemma_namespace_warned_grows(old(self).warnings(), self.warnings(), t, old(lexer).input());
            }
            assert forall|t: Token| old(self).first_handled(t, old(lexer).input()) implies #[trigger] self.first_handled(t, old(lexer).input()) by {
                lemma_first_selector_reported_grows(old(self).dependencies(), self.dependencies(), self.initial_mode@, t, old(lexer).input());
            }
        }
        r
    }

    fn comma(&mut self, lexer: &mut Lexer<'s>, start: Pos, end: Pos) -> (r: Option<()>)
        ensures
            old(self).scoping() is None ==> r is Some && final(self).same_state(old(self)) && *final(lexer) == *old(lexer),
            !(old(self).current_scope() is InBlock) ==> final(self).dependencies() == old(self).dependencies() && *final(lexer) == *old(lexer),
    {
        let r = self.visit_comma(lexer, start, end);
        proof {
            self.warnings_before@ = self.handle_warning.warnings_handled();
            self.dependencies_mark@ = self.handle_dependency.dependencies_handled();
            self.untouched@ = false;
            if r is None {
                self.stopped@ = true;
            }
            assert forall|t: Token| old(self).handled(t, old(lexer).input()) implies #[trigger] self.handled(t, old(lexer).input()) by {
                lemma_namespace_warned_grows(old(self).warnings(), self.warnings(), t, old(lexer).input());
            }
            assert forall|t: Token| old(self).first_handled(t, old(lexer).input()) implies #[trigger] self.first_handled(t, old(lexer).input()) by {
                lemma_first_selector_reported_grows(old(self).dependencies(), self.dependencies(), self.initial_mode@, t, old(lexer).input());
            }
        }
        r
    }

    fn class(&mut self, lexer: &mut Lexer<'s>, start: Pos, end: Pos) -> (r: Option<()>)
        ensures
            *final(lexer) == *old(lexer),
            old(self).scoping() is None ==> r is Some && final(self).same_state(old(self)),
            old(self).scoping() is Some && !is_str_range(old(lexer).input(), start as int, end as int) ==> r is None && final(self).same_state(old(self)),
            old(self).scoping() is Some && is_str_range(old(lexer).input(), start as int, end as int) && old(lexer).input().spec_bytes().subrange(start as int, end as int) == ".".spec_bytes() ==> r is Some && final(self).dependencies() == old(self).dependencies() && final(self).warnings() == old(self).warnings().push(final(self).warnings().last()) && final(self).warnings().last().range == (Range { start, end }) && final(self).warnings().last().kind is Unexpected,
            old(self).scoping() matches Some(m) ==> (is_str_range(old(lexer).input(), start as int, end as int) && old(lexer).input().spec_bytes().subrange(start as int, end as int) != ".".spec_bytes() ==> {
                &&& final(self).warnings() == old(self).warnings()
                &&& (m.current == Mode::Local || m.current == Mode::Pure) ==> (final(self).dependencies() == old(self).dependencies().push(final(self).dependencies().last()) && (final(self).dependencies().last() matches Dependency::LocalClass { name, range, explicit } && name.spec_bytes() == old(lexer).input().spec_bytes().subrange(start as int, end as int) && range == (Range { start, end }) && explicit == (m.inside_mode_function > 0 || m.inside_mode_class > 0)))
                &&& !(m.current == Mode::Local || m.current == Mode::Pure) ==> r is Some && final(self).same_state(old(self))
            }),
    {
        let r = self.visit_class(lexer, start, end);
        proof {
            self.warnings_before@ = self.handle_warning.warnings_handled();
            self.dependencies_mark@ = self.handle_dependency.dependencies_handled();
            self.untouched@ = false;
            if r is None {
                self.stopped@ = true;
            }
            assert forall|t: Token| old(self).handled(t, old(lexer).input()) implies #[trigger] self.handled(t, old(lexer).input()) by {
                lemma_namespace_warned_grows(old(self).warnings(), self.warnings(), t, old(lexer).input());
            }
            assert forall|t: Token| old(self).first_handled(t, old(lexer).input()) implies #[trigger] self.first_handled(t, old(lexer).input()) by {
                lemma_first_selector_reported_grows(old(self).dependencies(), self.dependencies(), self.initial_mode@, t, old(lexer).input());
            }
        }
        r
    }

    fn pseudo_function(&mut self, lexer: &mut Lexer<'s>, start: Pos, end: Pos) -> (r: Option<()>)
        ensures
            old(self).scoping() is Some && is_str_range(old(lexer).input(), start as int, end as int) && !bytes_eq_ignore_ascii_case(old(lexer).input().spec_bytes().subrange(start as int, end as int), ":import(".spec_bytes()) && (bytes_eq_ignore_ascii_case(old(lexer).input().spec_bytes().subrange(start as int, end as int), ":global(".spec_bytes()) || bytes_eq_ignore_ascii_case(old(lexer).input().spec_bytes().subrange(start as int, end as int), ":local(".spec_bytes())) ==> final(lexer).cur_char() is None || final(lexer).peek_char() is None || (r is Some && (final(lexer).cur_char() matches Some(c) && !spec_is_white_space(c)) && (old(self).balanced_items().len() < MAX_LIST_LEN ==> final(self).balanced_items() == old(self).balanced_items().push((BalancedItem { kind: spec_balanced_kind(old(lexer).input().spec_bytes().subrange(start as int, end as int)), range: Range { start, end } }))) && final(self).dependencies() == old(self).dependencies().push(final(self).dependencies().last()) && (final(self).dependencies().last() matches Dependency::Replace { content, range } && content.spec_bytes().len() == 0 && range == (Range { start, end: final(lexer).cur_position().unwrap() }))),
            !is_str_range(old(lexer).input(), start as int, end as int) ==> r is None && final(self).same_state(old(self)) && *final(lexer) == *old(lexer),
            old(self).scoping() is None && is_str_range(old(lexer).input(), start as int, end as int) ==> r is Some && *final(lexer) == *old(lexer) && final(self).dependencies() == old(self).dependencies() && final(self).warnings() == old(self).warnings() && (old(self).balanced_items().len() < MAX_LIST_LEN ==> final(self).balanced_items() == old(self).balanced_items().push((BalancedItem { kind: spec_balanced_kind(old(lexer).input().spec_bytes().subrange(start as int, end as int)), range: Range { start, end } }))),
    {
        let r = self.visit_pseudo_function(lexer, start, end);
        proof {
            self.warnings_before@ = self.handle_warning.warnings_handled();
            self.dependencies_mark@ = self.handle_dependency.dependencies_handled();
            self.untouched@ = false;
            if r is None {
                self.stopped@ = true;
            }
            assert forall|t: Token| old(self).handled(t, old(lexer).input()) implies #[trigger] self.handled(t, old(lexer).input()) by {
                lemma_namespace_warned_grows(old(self).warnings(), self.warnings(), t, old(lexer).input());
            }
            assert forall|t: Token| old(self).first_handled(t, old(lexer).input()) implies #[trigger] self.first_handled(t, old(lexer).input()) by {
                lemma_first_selector_reported_grows(old(self).dependencies(), self.dependencies(), self.initial_mode@, t, old(lexer).input());
            }
        }
        r
    }

    fn pseudo_class(&mut self, lexer: &mut Lexer<'s>, start: Pos, end: Pos) -> (r: Option<()>)
        ensures
            old(self).scoping() is Some && is_str_range(old(lexer).input(), start as int, end as int) && (bytes_eq_ignore_ascii_case(old(lexer).input().spec_bytes().subrange(start as int, end as int), ":global".spec_bytes()) || bytes_eq_ignore_ascii_case(old(lexer).input().spec_bytes().subrange(start as int, end as int), ":local".spec_bytes())) ==> final(lexer).cur_char() is None || final(lexer).peek_char() is None || (r is Some && (final(lexer).cur_char() matches Some(c) && !spec_is_white_space(c)) && (old(self).balanced_items().len() < MAX_LIST_LEN ==> final(self).balanced_items() == old(self).balanced_items().push((BalancedItem { kind: spec_balanced_kind(old(lexer).input().spec_bytes().subrange(start as int, end as int)), range: Range { start, end } }))) && final(self).dependencies() == old(self).dependencies().push(final(self).dependencies().last()) && (final(self).dependencies().last() matches Dependency::Replace { content, range } && content.spec_bytes().len() == 0 && range == (Range { start, end: final(lexer).cur_position().unwrap() }))),
            old(self).scoping() is None ==> r is Some && final(self).same_state(old(self)) && *final(lexer) == *old(lexer),
            old(self).scoping() is Some && !is_str_range(old(lexer).input(), start as int, end as int) ==> r is None && final(self).same_state(old(self)) && *final(lexer) == *old(lexer),
            old(self).scoping() is Some && is_str_range(old(lexer).input(), start as int, end as int) && !bytes_eq_ignore_ascii_case(old(lexer).input().spec_bytes().subrange(start as int, end as int), ":global".spec_bytes()) && !bytes_eq_ignore_ascii_case(old(lexer).input().spec_bytes().subrange(start as int, end as int), ":local".spec_bytes()) && !(old(self).current_scope() is TopLevel && bytes_eq_ignore_ascii_case(old(lexer).input().spec_bytes().subrange(start as int, end as int), ":export".spec_bytes())) ==> r is Some && *final(lexer) == *old(lexer) && final(self).dependencies() == old(self).dependencies() && final(self).warnings() == old(self).warnings() && final(self).balanced_items() == old(self).balanced_items(),
            old(self).scoping() is Some && is_str_range(old(lexer).input(), start as int, end as int) && (bytes_eq_ignore_ascii_case(old(lexer).input().spec_bytes().subrange(start as int, end as int), ":global".spec_bytes()) || bytes_eq_ignore_ascii_case(old(lexer).input().spec_bytes().subrange(start as int, end as int), ":local".spec_bytes())) && r is Some ==> final(self).dependencies() == old(self).dependencies().push(final(self).dependencies().last()) && (final(self).dependencies().last() matches Dependency::Replace { content, range } && content.spec_bytes().len() == 0 && range.start == start),
    {
        let r = self.visit_pseudo_class(lexer, start, end);
        proof {
            self.warnings_before@ = self.handle_warning.warnings_handled();
            self.dependencies_mark@ = self.handle_dependency.dependencies_handled();
            self.untouched@ = false;
            if r is None {
                self.stopped@ = true;
            }
            assert forall|t: Token| old(self).handled(t, old(lexer).input()) implies #[trigger] self.handled(t, old(lexer).input()) by {
                lemma_namespace_warned_grows(old(self).warnings(), self.warnings(), t, old(lexer).input());
            }
            assert forall|t: Token| old(self).first_handled(t, old(lexer).input()) implies #[trigger] self.first_handled(t, old(lexer).input()) by {
                lemma_first_selector_reported_grows(old(self).dependencies(), self.dependencies(), self.initial_mode@, t, old(lexer).input());
            }
        }
        r
    }

    fn semicolon(&mut self, lexer: &mut Lexer<'s>, start: Pos, end: Pos) -> (r: Option<()>)
        ensures
            old(self).current_scope() is InBlock && (old(self).scoping() matches Some(m) && (m.property == Mode::Local || m.property == Mode::Pure)) && r is Some ==> (old(self).pending_keyframes() matches Some(range) ==> (is_str_range(old(lexer).input(), range.start as int, range.end as int) ==> exists|i: int| 0 <= i < final(self).dependencies().len() && (#[trigger] final(self).dependencies()[i] matches Dependency::LocalKeyframes { range: rr, .. } && rr == range))) && (old(self).pending_counter_style() matches Some(range) ==> (is_str_range(old(lexer).input(), range.start as int, range.end as int) ==> exists|i: int| 0 <= i < final(self).dependencies().len() && (#[trigger] final(self).dependencies()[i] matches Dependency::LocalCounterStyle { range: rr, .. } && rr == range))) && (old(self).pending_font_palette() matches Some(range) ==> (range.start + 2 <= u32::MAX && is_str_range(old(lexer).input(), range.start + 2, range.end as int) ==> exists|i: int| 0 <= i < final(self).dependencies().len() && (#[trigger] final(self).dependencies()[i] matches Dependency::LocalFontPalette { range: rr, .. } && rr == range))),
            old(self).current_scope() matches Scope::InAtImport(d) ==> (d.url matches Some(u) ==> (d.url_range matches Some(ur) ==> (d.layer is Unset && d.supports is Unset ==> {
                &&& r is Some
                &&& final(self).current_scope() is TopLevel
                &&& final(self).warnings() == old(self).warnings()
                &&& final(self).dependencies() == old(self).dependencies().push(final(self).dependencies().last())
                &&& final(self).dependencies().last() matches Dependency::Import { request, range, layer, supports, media } && request == u && range == (Range { start: d.start, end }) && layer is None && supports is None && (media matches Some(m) ==> m.spec_bytes() == old(lexer).input().spec_bytes().subrange(ur.end as int, start as int))
                &&& is_str_range(old(lexer).input(), ur.end as int, start as int) && old(lexer).text_at(ur.end as int, start as int).len() > 0 && !spec_is_white_space(old(lexer).text_at(ur.end as int, start as int)[0]) && old(lexer).text_at(ur.end as int, start as int)[0] != '/' ==> (final(self).dependencies().last() matches Dependency::Import { media, .. } && media is Some)
            }))),
            old(self).current_scope() is InBlock && (old(self).scoping() matches Some(m) && (m.property == Mode::Local || m.property == Mode::Pure)) && r is Some ==> final(self).no_open_property(),
            old(self).current_scope() is TopLevel ==> r is Some && final(self).same_state(old(self)) && *final(lexer) == *old(lexer),
            old(self).current_scope() is AtImportInvalid || old(self).current_scope() is AtNamespaceInvalid ==> r is Some && final(self).current_scope() is TopLevel && final(self).dependencies() == old(self).dependencies() && final(self).warnings() == old(self).warnings() && final(self).balanced_items() == old(self).balanced_items() && *final(lexer) == *old(lexer),
            old(self).current_scope() is InBlock && old(self).scoping() is None ==> r is Some && final(self).same_state(old(self)) && *final(lexer) == *old(lexer),
            old(self).current_scope() is InAtImport && r is Some ==> final(self).current_scope() is TopLevel,
            old(self).current_scope() matches Scope::InAtImport(d) ==> (final(self).dependencies() == old(self).dependencies() || (final(self).dependencies() == old(self).dependencies().push(final(self).dependencies().last()) && (final(self).dependencies().last() matches Dependency::Import { request, range, .. } && d.url == Some(request) && range == (Range { start: d.start, end })))),
    {
        let r = self.visit_semicolon(lexer, start, end);
        proof {
            self.warnings_before@ = self.handle_warning.warnings_handled();
            self.dependencies_mark@ = self.handle_dependency.dependencies_handled();
            self.untouched@ = false;
            if r is None {
                self.stopped@ = true;
            }
            assert forall|t: Token| old(self).handled(t, old(lexer).input()) implies #[trigger] self.handled(t, old(lexer).input()) by {
                lemma_namespace_warned_grows(old(self).warnings(), self.warnings(), t, old(lexer).input());
            }
            assert forall|t: Token| old(self).first_handled(t, old(lexer).input()) implies #[trigger] self.first_handled(t, old(lexer).input()) by {
                lemma_first_selector_reported_grows(old(self).dependencies(), self.dependencies(), self.initial_mode@, t, old(lexer).input());
            }
        }
        r
    }

    fn at_keyword(&mut self, lexer: &mut Lexer<'s>, start: Pos, end: Pos) -> (r: Option<()>)
        ensures
            old(self).scoping() is Some && is_str_range(old(lexer).input(), start as int, end as int) && bytes_eq_ignore_ascii_case(old(lexer).input().spec_bytes().subrange(start as int, end as int), "@counter-style".spec_bytes()) ==> (forall|k: int| #![trigger white_space_up_to(old(lexer).text(), old(lexer).index(), k)] white_space_up_to(old(lexer).text(), old(lexer).index(), k) && k + 2 < old(lexer).text().len() && spec_start_ident_sequence(old(lexer).text()[k], old(lexer).text()[k + 1], old(lexer).text()[k + 2]) ==> final(lexer).cur_char() is None || (final(self).dependencies().len() > old(self).dependencies().len() && (final(self).dependencies()[old(self).dependencies().len() as int] matches Dependency::LocalCounterStyleDecl { name, range } && range.start == byte_offset(old(lexer).text(), k) && name.spec_bytes() == old(lexer).input().spec_bytes().subrange(range.start as int, range.end as int)))),
            old(self).scoping() is Some && is_str_range(old(lexer).input(), start as int, end as int) && bytes_eq_ignore_ascii_case(old(lexer).input().spec_bytes().subrange(start as int, end as int), "@property".spec_bytes()) ==> (forall|k: int| #![trigger white_space_up_to(old(lexer).text(), old(lexer).index(), k)] white_space_up_to(old(lexer).text(), old(lexer).index(), k) && k + 1 < old(lexer).text().len() && old(lexer).text()[k] == '-' && old(lexer).text()[k + 1] == '-' ==> final(lexer).cur_char() is None || (final(self).dependencies().len() > old(self).dependencies().len() && (final(self).dependencies()[old(self).dependencies().len() as int] matches Dependency::LocalPropertyDecl { range, .. } && range.start == byte_offset(old(lexer).text(), k)))),
            old(self).scoping() is Some && is_str_range(old(lexer).input(), start as int, end as int) && bytes_eq_ignore_ascii_case(old(lexer).input().spec_bytes().subrange(start as int, end as int), "@font-palette-values".spec_bytes()) ==> (forall|k: int| #![trigger white_space_up_to(old(lexer).text(), old(lexer).index(), k)] white_space_up_to(old(lexer).text(), old(lexer).index(), k) && k + 1 < old(lexer).text().len() && old(lexer).text()[k] == '-' && old(lexer).text()[k + 1] == '-' ==> final(lexer).cur_char() is None || (final(self).dependencies().len() > old(self).dependencies().len() && (final(self).dependencies()[old(self).dependencies().len() as int] matches Dependency::LocalFontPaletteDecl { range, .. } && range.start == byte_offset(old(lexer).text(), k)))),
            old(self).scoping() matches Some(m) ==> (is_str_range(old(lexer).input(), start as int, end as int) && bytes_eq_ignore_ascii_case(old(lexer).input().spec_bytes().subrange(start as int, end as int), "@keyframes".spec_bytes()) ==> (forall|k: int| #![trigger white_space_up_to(old(lexer).text(), old(lexer).index(), k)] white_space_up_to(old(lexer).text(), old(lexer).index(), k) && old(lexer).text()[k] != ':' && k + 2 < old(lexer).text().len() && spec_start_ident_sequence(old(lexer).text()[k], old(lexer).text()[k + 1], old(lexer).text()[k + 2]) && (m.current == Mode::Local || m.current == Mode::Pure) ==> final(lexer).cur_char() is None || (final(self).dependencies().len() > old(self).dependencies().len() && (final(self).dependencies()[old(self).dependencies().len() as int] matches Dependency::LocalKeyframesDecl { name, range } && range.start == byte_offset(old(lexer).text(), k) && name.spec_bytes() == old(lexer).input().spec_bytes().subrange(range.start as int, range.end as int))))),
            old(self).scoping() is Some && is_str_range(old(lexer).input(), start as int, end as int) && bytes_eq_ignore_ascii_case(old(lexer).input().spec_bytes().subrange(start as int, end as int), "@scope".spec_bytes()) ==> r is Some && final(self).next_is_rule_prelude() && final(self).dependencies() == old(self).dependencies() && final(self).warnings() == old(self).warnings() && final(self).current_scope() == old(self).current_scope() && *final(lexer) == *old(lexer),
            old(self).scoping() is Some && is_str_range(old(lexer).input(), start as int, end as int) && bytes_eq_ignore_ascii_case(old(lexer).input().spec_bytes().subrange(start as int, end as int), "@property".spec_bytes()) ==> final(self).dependencies() == old(self).dependencies() || (final(self).dependencies() == old(self).dependencies().push(final(self).dependencies().last()) && (final(self).dependencies().last() matches Dependency::LocalPropertyDecl { name, range } && name.spec_bytes() == old(lexer).input().spec_bytes().subrange(range.start + 2, range.end as int))),
            old(self).scoping() is Some && is_str_range(old(lexer).input(), start as int, end as int) && bytes_eq_ignore_ascii_case(old(lexer).input().spec_bytes().subrange(start as int, end as int), "@counter-style".spec_bytes()) ==> final(self).dependencies() == old(self).dependencies() || (final(self).dependencies() == old(self).dependencies().push(final(self).dependencies().last()) && (final(self).dependencies().last() matches Dependency::LocalCounterStyleDecl { name, range } && name.spec_bytes() == old(lexer).input().spec_bytes().subrange(range.start as int, range.end as int))),
            old(self).scoping() is Some && is_str_range(old(lexer).input(), start as int, end as int) && bytes_eq_ignore_ascii_case(old(lexer).input().spec_bytes().subrange(start as int, end as int), "@font-palette-values".spec_bytes()) ==> final(self).dependencies() == old(self).dependencies() || (final(self).dependencies() == old(self).dependencies().push(final(self).dependencies().last()) && (final(self).dependencies().last() matches Dependency::LocalFontPaletteDecl { name, range } && name.spec_bytes() == old(lexer).input().spec_bytes().subrange(range.start + 2, range.end as int))),
            !is_str_range(old(lexer).input(), start as int, end as int) ==> r is None && final(self).same_state(old(self)) && *final(lexer) == *old(lexer),
            is_str_range(old(lexer).input(), start as int, end as int) && bytes_eq_ignore_ascii_case(old(lexer).input().spec_bytes().subrange(start as int, end as int), "@namespace".spec_bytes()) ==> {
                &&& r is Some
                &&& final(self).current_scope() is AtNamespaceInvalid
                &&& final(self).dependencies() == old(self).dependencies()
                &&& final(self).warnings() == old(self).warnings().push((Warning { range: Range { start, end }, kind: WarningKind::NamespaceNotSupportedInBundledCss }))
                &&& *final(lexer) == *old(lexer)
            },
            is_str_range(old(lexer).input(), start as int, end as int) && !bytes_eq_ignore_ascii_case(old(lexer).input().spec_bytes().subrange(start as int, end as int), "@namespace".spec_bytes()) && bytes_eq_ignore_ascii_case(old(lexer).input().spec_bytes().subrange(start as int, end as int), "@import".spec_bytes()) ==> {
                &&& r is Some
                &&& final(self).dependencies() == old(self).dependencies()
                &&& *final(lexer) == *old(lexer)
                &&& old(self).imports_allowed() ==> final(self).warnings() == old(self).warnings() && (final(self).current_scope() matches Scope::InAtImport(d) && d.start == start && d.url is None && d.url_range is None && d.supports is Unset && d.layer is Unset)
                &&& !old(self).imports_allowed() ==> final(self).current_scope() is AtImportInvalid && final(self).warnings() == old(self).warnings().push((Warning { range: Range { start, end }, kind: WarningKind::NotPrecededAtImport }))
            },
            old(self).scoping() is None && is_str_range(old(lexer).input(), start as int, end as int) && !bytes_eq_ignore_ascii_case(old(lexer).input().spec_bytes().subrange(start as int, end as int), "@namespace".spec_bytes()) && !bytes_eq_ignore_ascii_case(old(lexer).input().spec_bytes().subrange(start as int, end as int), "@import".spec_bytes()) ==> r is Some && final(self).same_state(old(self)) && *final(lexer) == *old(lexer),
    {
        let r = self.visit_at_keyword(lexer, start, end);
        proof {
            self.warnings_before@ = self.handle_warning.warnings_handled();
            self.dependencies_mark@ = self.handle_dependency.dependencies_handled();
            self.untouched@ = false;
            if r is None {
                self.stopped@ = true;
            }
            let w = Warning {
                range: Range { start, end },
                kind: WarningKind::NamespaceNotSupportedInBundledCss,
            };
            if is_str_range(old(lexer).input(), start as int, end as int) && bytes_eq_ignore_ascii_case(
                old(lexer).input().spec_bytes().subrange(start as int, end as int),
                "@namespace".spec_bytes(),
            ) {
                assert(self.warnings()[old(self).warnings().len() as int] == w);
            }
            assert forall|t: Token| old(self).handled(t, old(lexer).input()) implies #[trigger] self.handled(t, old(lexer).input()) by {
                lemma_namespace_warned_grows(old(self).warnings(), self.warnings(), t, old(lexer).input());
            }
            assert forall|t: Token| old(self).first_handled(t, old(lexer).input()) implies #[trigger] self.first_handled(t, old(lexer).input()) by {
                lemma_first_selector_reported_grows(old(self).dependencies(), self.dependencies(), self.initial_mode@, t, old(lexer).input());
            }
        }
        r
    }

    fn left_curly_bracket(&mut self, lexer: &mut Lexer<'s>, start: Pos, end: Pos) -> (r: Option<()>)
        ensures
            !(old(self).current_scope() is TopLevel) && !(old(self).current_scope() is InBlock) ==> r is Some && final(self).same_state(old(self)) && *final(lexer) == *old(lexer),
            old(self).current_scope() is TopLevel ==> final(self).current_scope() is InBlock && !final(self).imports_allowed(),
            old(self).current_scope() is InBlock ==> final(self).current_scope() is InBlock && final(self).nesting() == (if old(self).nesting() < u32::MAX { old(self).nesting() + 1 } else { old(self).nesting() as int }),
            old(self).scoping() is None ==> r is Some && *final(lexer) == *old(lexer) && final(self).dependencies() == old(self).dependencies() && final(self).warnings() == old(self).warnings() && final(self).balanced_items() == old(self).balanced_items(),
            old(self).scoping() is None && old(self).current_scope() is TopLevel ==> final(self).nesting() == 1,
    {
        let r = self.visit_left_curly_bracket(lexer, start, end);
        proof {
            self.warnings_before@ = self.handle_warning.warnings_handled();
            self.dependencies_mark@ = self.handle_dependency.dependencies_handled();
            self.untouched@ = false;
            if r is None {
                self.stopped@ = true;
            }
            assert forall|t: Token| old(self).handled(t, old(lexer).input()) implies #[trigger] self.handled(t, old(lexer).input()) by {
                lemma_namespace_warned_grows(old(self).warnings(), self.warnings(), t, old(lexer).input());
            }
            assert forall|t: Token| old(self).first_handled(t, old(lexer).input()) implies #[trigger] self.first_handled(t, old(lexer).input()) by {
                lemma_first_selector_reported_grows(old(self).dependencies(), self.dependencies(), self.initial_mode@, t, old(lexer).input());
            }
        }
        r
    }

    fn right_curly_bracket(&mut self, lexer: &mut Lexer<'s>, start: Pos, end: Pos) -> (r: Option<()>)
        ensures
            !(old(self).current_scope() is InBlock) ==> r is Some && final(self).same_state(old(self)) && *final(lexer) == *old(lexer),
            old(self).current_scope() is InBlock && r is Some ==> final(self).nesting() == (if old(self).nesting() > 0 { old(self).nesting() - 1 } else { 0 }) && (final(self).nesting() == 0 ==> final(self).current_scope() is TopLevel) && (final(self).nesting() > 0 ==> final(self).current_scope() is InBlock),
            old(self).scoping() is None ==> r is Some && *final(lexer) == *old(lexer) && final(self).dependencies() == old(self).dependencies() && final(self).warnings() == old(self).warnings() && final(self).balanced_items() == old(self).balanced_items(),
    {
        let r = self.visit_right_curly_bracket(lexer, start, end);
        proof {
            self.warnings_before@ = self.handle_warning.warnings_handled();
            self.dependencies_mark@ = self.handle_dependency.dependencies_handled();
            self.untouched@ = false;
            if r is None {
                self.stopped@ = true;
            }
            assert forall|t: Token| old(self).handled(t, old(lexer).input()) implies #[trigger] self.handled(t, old(lexer).input()) by {
                lemma_namespace_warned_grows(old(self).warnings(), self.warnings(), t, old(lexer).input());
            }
            assert forall|t: Token| old(self).first_handled(t, old(lexer).input()) implies #[trigger] self.first_handled(t, old(lexer).input()) by {
                lemma_first_selector_reported_grows(old(self).dependencies(), self.dependencies(), self.initial_mode@, t, old(lexer).input());
            }
        }
        r
    }
}


impl<'s, D: HandleDependency<'s>, W: HandleWarning<'s>> LexDependencies<'s, D, W> {
    /// Lexes a `:` as the lexer does, reporting a pseudo class or function to `self`.
    fn consume_potential_pseudo(&mut self, lexer: &mut Lexer<'s>) -> (r: Option<()>)
        requires
            old(self).inv_for(old(lexer).input()),
            old(lexer).wf(),
        ensures
            old(lexer).cur_char() is None ==> r is None && *final(self) == *old(self),
            !old(self).next_is_rule_prelude() ==> *final(self) == *old(self),
            old(lexer).cur_char() is Some ==> final(lexer).progressed_from(*old(lexer)),
            final(self).inv_for(final(lexer).input()),
            final(self).frame_of() == old(self).frame_of(),
            final(lexer).advanced_from(*old(lexer)),
    {
        let start = lexer.cur_pos()?;
        let c = lexer.consume()?;
        if !self.is_next_rule_prelude {
            return Some(());
        }
        if !start_ident_sequence(c, lexer.peek()?, lexer.peek2()?) {
            return Some(());
        }
        lexer.consume_ident_sequence()?;
        if lexer.cur()? == C_LEFT_PARENTHESIS {
            let _ = lexer.consume()?;
            let end = lexer.cur_pos()?;
            self.visit_pseudo_function(lexer, start, end)
        } else {
            let end = lexer.cur_pos()?;
            self.visit_pseudo_class(lexer, start, end)
        }
    }

    /// Lexes the name of `@keyframes`, possibly marked `:local`/`:global`.
    #[verifier::spinoff_prover]
    #[verifier::rlimit(50)]
    fn lex_local_keyframes_decl(&mut self, lexer: &mut Lexer<'s>) -> (r: Option<()>)
        requires
            old(self).mode_data is Some,
            old(self).inv_for(old(lexer).input()),
            old(lexer).wf(),
        ensures
            old(self).scoping() matches Some(m) ==> (forall|k: int| #![trigger white_space_up_to(old(lexer).text(), old(lexer).index(), k)] white_space_up_to(old(lexer).text(), old(lexer).index(), k) && old(lexer).text()[k] != ':' && k + 2 < old(lexer).text().len() && spec_start_ident_sequence(old(lexer).text()[k], old(lexer).text()[k + 1], old(lexer).text()[k + 2]) && (m.current == Mode::Local || m.current == Mode::Pure) ==> final(lexer).cur_char() is None || (final(self).dependencies().len() > old(self).dependencies().len() && (final(self).dependencies()[old(self).dependencies().len() as int] matches Dependency::LocalKeyframesDecl { name, range } && range.start == byte_offset(old(lexer).text(), k) && name.spec_bytes() == old(lexer).input().spec_bytes().subrange(range.start as int, range.end as int)))),
            final(self).inv_for(final(lexer).input()),
            final(self).frame_of() == old(self).frame_of(),
            final(lexer).advanced_from(*old(lexer)),
    {
        let ghost input = lexer.input().spec_bytes();
        lexer.consume_white_space_and_comments()?;
        let mut is_function = false;
        if lexer.cur()? == C_COLON {
            let start = lexer.cur_pos()?;
            self.consume_potential_pseudo(lexer)?;
            let end = lexer.cur_pos()?;
            let pseudo = lexer.slice(start, end)?;
            let pure = match &self.mode_data {
                Some(mode_data) => mode_data.is_pure_mode(),
                None => false,
            };
            if pure && eq_ignore_ascii_case(pseudo, ":global(") || eq_ignore_ascii_case(
                pseudo,
                ":global",
            ) {
                self.warn(
                    Ghost(input),
                    Warning {
                        range: Range::new(start, end),
                        kind: WarningKind::NotPure {
                            message: "'@keyframes :global' is not allowed in pure mode",
                        },
                    },
                );
            }
            is_function = eq_ignore_ascii_case(pseudo, ":local(") || eq_ignore_ascii_case(
                pseudo,
                ":global(",
            );
            if !is_function && !eq_ignore_ascii_case(pseudo, ":local") && !eq_ignore_ascii_case(
                pseudo,
                ":global",
            ) {
                self.warn(
                    Ghost(input),
                    Warning {
                        range: Range::new(start, end),
                        kind: WarningKind::Unexpected {
                            message: "Expected ':local', ':local()', ':global', or ':global()' during parsing of '@keyframes' name",
                        },
                    },
                );
                return Some(());
            }
            lexer.consume_white_space_and_comments()?;
        }
        let start = lexer.cur_pos()?;
        let ghost at_start = *lexer;
        proof {
            if lexer.cur_char() is Some {
                lexer.lemma_cur_offset();
            }
        }
        if !start_ident_sequence(lexer.cur()?, lexer.peek()?, lexer.peek2()?) {
            let end = lexer.peek2_pos()?;
            proof {
                lexer.lemma_positions();
            }
            self.warn(
                Ghost(input),
                Warning {
                    range: Range::new(start, end),
                    kind: WarningKind::Unexpected {
                        message: "Expected ident during parsing of '@keyframes' name",
                    },
                },
            );
            return Some(());
        }
        lexer.consume_ident_sequence()?;
        let end = lexer.cur_pos()?;
        let local = match &self.mode_data {
            Some(mode_data) => mode_data.is_current_local_mode(),
            None => false,
        };
        if local {
            proof {
                if at_start.cur_char() is Some && lexer.cur_char() is Some {
                    lexer.lemma_cur_range(at_start);
                }
            }
            let name = lexer.slice(start, end)?;
            self.report(
                Ghost(input),
                Dependency::LocalKeyframesDecl { name, range: Range::new(start, end) },
            );
        }
        lexer.consume_white_space_and_comments()?;
        if is_function {
            if lexer.cur()? != C_RIGHT_PARENTHESIS {
                let a = lexer.cur_pos()?;
                let b = lexer.peek_pos()?;
                proof {
                    lexer.lemma_positions();
                }
                self.warn(
                    Ghost(input),
                    Warning {
                        range: Range::new(a, b),
                        kind: WarningKind::Unexpected {
                            message: "Expected ')' during parsing of '@keyframes :local(' or '@keyframes :global('",
                        },
                    },
                );
                return Some(());
            }
            let a = lexer.cur_pos()?;
            let b = lexer.peek_pos()?;
            proof {
                lexer.lemma_positions();
            }
            let content = empty_text();
            self.report(Ghost(input), Dependency::Replace { content, range: Range::new(a, b) });
            if let Some(mode_data) = &mut self.mode_data {
                mode_data.inside_mode_function = mode_data.inside_mode_function.saturating_sub(1);
            }
            let _ = self.bal_pop_without_mode_data(Ghost(input));
            let _ = lexer.consume();
            lexer.consume_white_space_and_comments()?;
        }
        if lexer.cur()? != C_LEFT_CURLY {
            let a = lexer.cur_pos()?;
            let b = lexer.peek_pos()?;
            proof {
                lexer.lemma_positions();
            }
            self.warn(
                Ghost(input),
                Warning {
                    range: Range::new(a, b),
                    kind: WarningKind::Unexpected {
                        message: "Expected '{' during parsing of '@keyframes'",
                    },
                },
            );
            return Some(());
        }
        Some(())
    }

    /// The name of `composes` at the cursor: reports a `global(name)` at once, and
    /// returns `true` on the `from` that ends the names of a group.
    #[verifier::spinoff_prover]
    #[verifier::rlimit(80)]
    fn lex_composes_name(
        &mut self,
        lexer: &mut Lexer<'s>,
        local_classes: &NameList<'s>,
        names: &mut NameList<'s>,
        end: &mut Pos,
    ) -> (r: Option<Option<bool>>)
        requires
            old(self).mode_data is Some,
            old(self).inv_for(old(lexer).input()),
            old(lexer).wf(),
            *old(end) <= old(lexer).total(),
            old(lexer).cur_char() is Some,
        ensures
            old(lexer).cur_position() matches Some(p) ==> (is_str_range(old(lexer).input(), p as int, p + 7) && old(lexer).input().spec_bytes().subrange(p as int, p + 7) == "global(".spec_bytes() && r == Some(Some(false)) ==> name_list_view(*final(names)) == name_list_view(*old(names)) && final(self).dependencies() == old(self).dependencies().push(final(self).dependencies().last()) && (final(self).dependencies().last() matches Dependency::Composes { local_classes: l, names: n, from, range } && name_list_view(l) == name_list_view(*local_classes) && from == Some("global") && range.start == p && (exists|e: int| p + 7 <= e && name_list_view(n) == seq![#[trigger] old(lexer).text_at(p + 7, e)]))),
            final(self).warnings().len() >= old(self).warnings().len(),
            r == Some(Some(true)) ==> name_list_view(*final(names)) == name_list_view(*old(names)) && final(self).dependencies() == old(self).dependencies(),
            r == Some(None::<bool>) ==> name_list_view(*final(names)) == name_list_view(*old(names)) && final(self).dependencies() == old(self).dependencies() && final(self).warnings() == old(self).warnings().push(final(self).warnings().last()) && final(self).warnings().last().kind is Unexpected,
            r == Some(Some(false)) ==> (final(self).dependencies() == old(self).dependencies() && name_list_view(*final(names)) == name_list_view(*old(names)).push(name_list_view(*final(names)).last())) || (name_list_view(*final(names)) == name_list_view(*old(names)) && final(self).dependencies() == old(self).dependencies().push(final(self).dependencies().last()) && (final(self).dependencies().last() matches Dependency::Composes { local_classes: l, from, .. } && name_list_view(l) == name_list_view(*local_classes) && from is Some)),
            final(self).dependencies() == old(self).dependencies() || (final(self).dependencies() == old(self).dependencies().push(final(self).dependencies().last()) && (final(self).dependencies().last() matches Dependency::Composes { local_classes: l, .. } && name_list_view(l) == name_list_view(*local_classes))),
            final(self).inv_for(final(lexer).input()),
            final(self).frame_of() == old(self).frame_of(),
            final(lexer).advanced_from(*old(lexer)),
            *final(end) <= final(lexer).total(),
            r matches Some(Some(_)) ==> final(lexer).progressed_from(*old(lexer)),
    {
        let ghost input = lexer.input().spec_bytes();
        let c = lexer.cur()?;
        let maybe_global_start = lexer.cur_pos()?;
        let ghost at_start = *lexer;
        let global_end = maybe_global_start.checked_add(7);
        let is_global = match global_end {
            Some(global_end) => match lexer.slice(maybe_global_start, global_end) {
                Some(word) => str_eq(word, "global("),
                None => false,
            },
            None => false,
        };
        if is_global {
            let mut i: u32 = 0;
            while i < 7
                invariant
                    lexer.advanced_from(*old(lexer)),
                    i == 0 ==> *lexer == *old(lexer),
                    i <= 7,
                    i > 0 ==> lexer.consumed() > old(lexer).consumed(),
                    old(lexer).cur_char() is Some,
                decreases 7 - i,
            {
                let _ = lexer.consume();
                i = i + 1;
            }
            let name_start = match global_end {
                Some(g) => g,
                None => return None,
            };
            if !start_ident_sequence(lexer.cur()?, lexer.peek()?, lexer.peek2()?) {
                let b = lexer.peek2_pos()?;
                proof {
                    lexer.lemma_positions();
                }
                self.warn(
                    Ghost(input),
                    Warning {
                        range: Range::new(name_start, b),
                        kind: WarningKind::Unexpected {
                            message: "Expected ident during parsing of 'composes'",
                        },
                    },
                );
                return Some(None);
            }
            lexer.consume_ident_sequence()?;
            let name_end = lexer.cur_pos()?;
            lexer.consume_white_space_and_comments()?;
            let _ = self.eat(lexer, C_RIGHT_PARENTHESIS, "Expected ')' during parsing of 'composes'");
            *end = lexer.cur_pos()?;
            let name = lexer.slice(name_start, name_end)?;
            proof {
                lexer.lemma_slice_view(name_start, name_end, name);
                assert(lexer.input() == at_start.input());
            }
            let mut global_names = NameList::new();
            global_names.push(name);
            let range_end = lexer.cur_pos()?;
            proof {
                assert(name_list_view(global_names) =~= seq![at_start.text_at(maybe_global_start + 7, name_end as int)]);
            }
            self.report(
                Ghost(input),
                Dependency::Composes {
                    local_classes: local_classes.duplicate(),
                    names: global_names,
                    from: Some("global"),
                    range: Range::new(maybe_global_start, range_end),
                },
            );
            Some(Some(false))
        } else {
            let name_start = lexer.cur_pos()?;
            if !start_ident_sequence(c, lexer.peek()?, lexer.peek2()?) {
                let b = lexer.peek2_pos()?;
                proof {
                    lexer.lemma_positions();
                }
                self.warn(
                    Ghost(input),
                    Warning {
                        range: Range::new(name_start, b),
                        kind: WarningKind::Unexpected {
                            message: "Expected ident during parsing of 'composes'",
                        },
                    },
                );
                return Some(None);
            }
            lexer.consume_ident_sequence()?;
            let name_end = lexer.cur_pos()?;
            let name = lexer.slice(name_start, name_end)?;
            if eq_ignore_ascii_case(name, "from") {
                return Some(Some(true));
            }
            if names.len() >= MAX_LIST_LEN {
                return None;
            }
            names.push(name);
            *end = name_end;
            Some(Some(false))
        }
    }

    /// Lexes the value of `composes: names [from path], ...`, whose name starts at `start`.
    fn lex_composes(&mut self, lexer: &mut Lexer<'s>, local_classes: NameList<'s>, start: Pos) -> (r: Option<()>)
        requires
            old(self).mode_data is Some,
            old(self).inv_for(old(lexer).input()),
            old(lexer).wf(),
            start <= old(lexer).total(),
        ensures
            forall|k: int| #![trigger white_space_up_to(old(lexer).text(), old(lexer).index(), k)] white_space_up_to(old(lexer).text(), old(lexer).index(), k) && old(lexer).text()[k] == ':' ==> (r is Some && final(self).warnings().len() == old(self).warnings().len() ==> final(self).dependencies().len() > 0 && (final(self).dependencies().last() matches Dependency::Replace { content, range } && content.spec_bytes().len() == 0 && range.start == start)),
            final(self).warnings().len() >= old(self).warnings().len(),
            extends_with(old(self).dependencies(), final(self).dependencies(), |d: Dependency<'s>| (d matches Dependency::Composes { local_classes: l, .. } && name_list_view(l) == name_list_view(local_classes)) || d is Url || (d matches Dependency::Replace { range, .. } && range.start == start)),
            (old(lexer).cur_char() matches Some(c) && !spec_is_white_space(c) && c != '/' && c != ':') ==> r is Some && *final(self) == *old(self) && *final(lexer) == *old(lexer),
            final(self).inv_for(final(lexer).input()),
            final(self).frame_of() == old(self).frame_of(),
            final(lexer).advanced_from(*old(lexer)),
    {
        proof {
            lemma_extends_refl(old(self).dependencies(), |d: Dependency<'s>| (d matches Dependency::Composes { local_classes: l, .. } && name_list_view(l) == name_list_view(local_classes)) || d is Url || (d matches Dependency::Replace { range, .. } && range.start == start));
        }
        let ghost input = lexer.input().spec_bytes();
        lexer.consume_white_space_and_comments()?;
        if lexer.cur()? != C_COLON {
            return Some(());
        }
        let _ = lexer.consume();
        let mut names: NameList<'s> = NameList::new();
        let mut end: Pos = start;
        let mut has_from = false;
        loop
            invariant
                self.inv_for(lexer.input()),
                self.frame_of() == old(self).frame_of(),
                self.mode_data is Some,
                lexer.advanced_from(*old(lexer)),
                input == lexer.input().spec_bytes(),
                self.warnings().len() >= old(self).warnings().len(),
                extends_with(old(self).dependencies(), self.dependencies(), |d: Dependency<'s>| (d matches Dependency::Composes { local_classes: l, .. } && name_list_view(l) == name_list_view(local_classes)) || d is Url || (d matches Dependency::Replace { range, .. } && range.start == start)),
                !(old(lexer).cur_char() matches Some(c) && !spec_is_white_space(c) && c != '/' && c != ':'),
                start <= lexer.total(),
                end <= lexer.total(),
            decreases lexer.text().len() + 3 - lexer.consumed(),
        {
            let ghost iteration_start = lexer.consumed();
            lexer.consume_white_space_and_comments()?;
            let group_start = lexer.cur_pos()?;
            end = group_start;
            loop
                invariant
                    self.inv_for(lexer.input()),
                    self.frame_of() == old(self).frame_of(),
                    self.mode_data is Some,
                    lexer.advanced_from(*old(lexer)),
                    lexer.consumed() >= iteration_start,
                    input == lexer.input().spec_bytes(),
                self.warnings().len() >= old(self).warnings().len(),
                extends_with(old(self).dependencies(), self.dependencies(), |d: Dependency<'s>| (d matches Dependency::Composes { local_classes: l, .. } && name_list_view(l) == name_list_view(local_classes)) || d is Url || (d matches Dependency::Replace { range, .. } && range.start == start)),
                !(old(lexer).cur_char() matches Some(c) && !spec_is_white_space(c) && c != '/' && c != ':'),
                    group_start <= lexer.total(),
                    end <= lexer.total(),
                decreases lexer.text().len() + 3 - lexer.consumed(),
            {
                let c = lexer.cur()?;
                if c == C_COMMA || c == C_SEMICOLON || c == C_RIGHT_CURLY {
                    break ;
                }
                let ghost before = self.dependencies();
                let named = self.lex_composes_name(lexer, &local_classes, &mut names, &mut end);
                proof {
                    if self.dependencies() != before {
                        lemma_extends_push(old(self).dependencies(), before, self.dependencies().last(), |d: Dependency<'s>| (d matches Dependency::Composes { local_classes: l, .. } && name_list_view(l) == name_list_view(local_classes)) || d is Url || (d matches Dependency::Replace { range, .. } && range.start == start));
                    }
                }
                let named = named?;
                match named {
                    None => return Some(()),
                    Some(true) => {
                        has_from = true;
                        break ;
                    },
                    Some(false) => {},
                }
                lexer.consume_white_space_and_comments()?;
            }
            lexer.consume_white_space_and_comments()?;
            let c = lexer.cur()?;
            if !has_from {
                if names.len() != 0 {
                    let group_names = names;
                    names = NameList::new();
                    let dependency = Dependency::Composes {
                        local_classes: local_classes.duplicate(),
                        names: group_names,
                        from: None,
                        range: Range::new(group_start, end),
                    };
                    let ghost before = self.dependencies();
                    self.report(Ghost(input), dependency);
                    proof {
                        lemma_extends_push(old(self).dependencies(), before, dependency, |d: Dependency<'s>| (d matches Dependency::Composes { local_classes: l, .. } && name_list_view(l) == name_list_view(local_classes)) || d is Url || (d matches Dependency::Replace { range, .. } && range.start == start));
                    }
                }
                if c == C_COMMA {
                    let _ = lexer.consume();
                    continue ;
                }
                break ;
            }
            let path_start = lexer.cur_pos()?;
            if c == '\'' || c == '"' {
                let _ = lexer.consume();
                let (string_start, string_end) = lexer.skip_string(c)?;
                let ghost before = self.dependencies();
                self.visit_string(lexer, string_start, string_end)?;
                proof {
                    if self.dependencies() != before {
                        lemma_extends_push(old(self).dependencies(), before, self.dependencies().last(), |d: Dependency<'s>| (d matches Dependency::Composes { local_classes: l, .. } && name_list_view(l) == name_list_view(local_classes)) || d is Url || (d matches Dependency::Replace { range, .. } && range.start == start));
                    }
                }
            } else if start_ident_sequence(c, lexer.peek()?, lexer.peek2()?) {
                lexer.consume_ident_sequence()?;
            } else {
                let b = lexer.peek_pos()?;
                proof {
                    lexer.lemma_positions();
                }
                self.warn(
                    Ghost(input),
                    Warning {
                        range: Range::new(path_start, b),
                        kind: WarningKind::Unexpected {
                            message: "Expected string or ident during parsing of 'composes'",
                        },
                    },
                );
                return Some(());
            }
            let path_end = lexer.cur_pos()?;
            end = path_end;
            let from = Some(lexer.slice(path_start, path_end)?);
            let group_names = names;
            names = NameList::new();
            let dependency = Dependency::Composes {
                local_classes: local_classes.duplicate(),
                names: group_names,
                from,
                range: Range::new(group_start, end),
            };
            let ghost before = self.dependencies();
            self.report(Ghost(input), dependency);
            proof {
                lemma_extends_push(old(self).dependencies(), before, dependency, |d: Dependency<'s>| (d matches Dependency::Composes { local_classes: l, .. } && name_list_view(l) == name_list_view(local_classes)) || d is Url || (d matches Dependency::Replace { range, .. } && range.start == start));
            }
            lexer.consume_white_space_and_comments()?;
            if lexer.cur()? != C_COMMA {
                break ;
            }
            let _ = lexer.consume();
        }
        if lexer.cur()? == C_SEMICOLON {
            let _ = lexer.consume();
            end = lexer.cur_pos()?;
        }
        let content = empty_text();
        let dependency = Dependency::Replace { content, range: Range::new(start, end) };
        let ghost before = self.dependencies();
        self.report(Ghost(input), dependency);
        proof {
            lemma_extends_push(old(self).dependencies(), before, dependency, |d: Dependency<'s>| (d matches Dependency::Composes { local_classes: l, .. } && name_list_view(l) == name_list_view(local_classes)) || d is Url || (d matches Dependency::Replace { range, .. } && range.start == start));
        }
        Some(())
    }
}


impl<'s, D: HandleDependency<'s>, W: HandleWarning<'s>> LexDependencies<'s, D, W> {
    /// Gives back the two handlers.
    pub fn into_handlers(self) -> (r: (D, W))
        ensures
            r == self.handlers(),
    {
        (self.handle_dependency, self.handle_warning)
    }
}

/// `after` holds what `before` held, then only dependencies that refer to the text `input`.
pub open spec fn dependencies_extended<'s>(
    input: Seq<u8>,
    before: Seq<Dependency<'s>>,
    after: Seq<Dependency<'s>>,
) -> bool {
    &&& before.len() <= after.len()
    &&& after.subrange(0, before.len() as int) == before
    &&& forall|i: int| before.len() <= i < after.len() ==> dependency_wf(input, #[trigger] after[i])
}

/// `after` holds what `before` held, then only warnings that refer to the text `input`.
pub open spec fn warnings_extended<'s>(
    input: Seq<u8>,
    before: Seq<Warning<'s>>,
    after: Seq<Warning<'s>>,
) -> bool {
    &&& before.len() <= after.len()
    &&& after.subrange(0, before.len() as int) == before
    &&& forall|i: int| before.len() <= i < after.len() ==> warning_wf(input, #[trigger] after[i])
}

/// Lexes `input` as a CSS module whose names are scoped by `mode`, hands each
/// dependency and each warning to its handler as it is found, and gives the
/// handlers back. Lexing never stops on bad syntax: what it cannot make sense
/// of is reported as a warning. The handlers keep what they held, and every
/// dependency and warning handed to them refers to the text of `input`; plain
/// CSS (`Mode::Css`) has only urls and imports as dependencies, and in the
/// local modes a class or id selector that opens the text is a local class or
/// local id.
pub fn lex_dependencies<'s, D: HandleDependency<'s>, W: HandleWarning<'s>>(
    input: &'s str,
    mode: Mode,
    handle_dependency: D,
    handle_warning: W,
) -> (r: (D, W))
    requires
        input.spec_bytes().len() <= u32::MAX,
    ensures
        dependencies_extended(
            input.spec_bytes(),
            handle_dependency.dependencies_handled(),
            r.0.dependencies_handled(),
        ),
        warnings_extended(
            input.spec_bytes(),
            handle_warning.warnings_handled(),
            r.1.warnings_handled(),
        ),
        mode == Mode::Css ==> forall|i: int|
            handle_dependency.dependencies_handled().len() <= i < r.0.dependencies_handled().len()
                ==> is_css_dependency(#[trigger] r.0.dependencies_handled()[i]),
        forall|k: int| #![trigger at_keyword_at(input@, 0, k)] at_keyword_at(input@, 0, k) ==> namespace_warned(
            r.1.warnings_handled(),
            Token::AtKeyword { start: 0, end: byte_offset(input@, k) as u32 },
            input,
        ),
        mode == Mode::Local || mode == Mode::Pure ==> forall|k: int| #![trigger class_at(input@, 0, k)] class_at(input@, 0, k) ==> first_class_named(
            r.0.dependencies_handled(),
            input,
            k,
        ),
        mode == Mode::Local || mode == Mode::Pure ==> forall|k: int| #![trigger id_at(input@, 0, k)] id_at(input@, 0, k) ==> first_id_named(
            r.0.dependencies_handled(),
            input,
            k,
        ),
{
    let mut lexer = Lexer::new(input);
    let mut visitor = LexDependencies::new(handle_dependency, handle_warning, mode);
    assert(visitor.reports_wf(input.spec_bytes()));
    let ghost fresh = lexer;
    let ghost start_visitor = visitor;
    assert(start_visitor.selecting() && start_visitor.pristine());
    lexer.lex(&mut visitor);
    assert(visitor.reports_wf(input.spec_bytes()));
    assert forall|k: int| #[trigger] at_keyword_at(input@, 0, k) implies visitor.handled(
        Token::AtKeyword { start: 0, end: byte_offset(input@, k) as u32 },
        input,
    ) by {
        assert(fresh.text() == input@);
        assert(lexer.tokens()[0] == (Token::AtKeyword { start: 0, end: byte_offset(input@, k) as u32 }));
    }
    assert forall|k: int| #[trigger] class_at(input@, 0, k) && (mode == Mode::Local || mode == Mode::Pure) implies first_class_named(visitor.dependencies(), input, k) by {
        lemma_class_opening(input, k);
        assert(fresh.text() == input@);
        assert(class_at(fresh.text(), 0, k));
        assert(fresh.consumed() == 2);
        assert(fresh.tokens().len() == 0);
        assert(lexer.tokens().len() > fresh.tokens().len());
        assert(lexer.tokens()[0] == (Token::Class { start: 0, end: byte_offset(input@, k) as u32 }));
        assert(visitor.first_handled(lexer.tokens()[0], input));
    }
    assert forall|k: int| #[trigger] id_at(input@, 0, k) && (mode == Mode::Local || mode == Mode::Pure) implies first_id_named(visitor.dependencies(), input, k) by {
        lemma_id_opening(input, k);
        assert(fresh.text() == input@);
        assert(id_at(fresh.text(), 0, k));
        assert(fresh.consumed() == 2);
        assert(fresh.tokens().len() == 0);
        assert(lexer.tokens().len() > fresh.tokens().len());
        assert(lexer.tokens()[0] == (Token::Id { start: 0, end: byte_offset(input@, k) as u32 }));
        assert(visitor.first_handled(lexer.tokens()[0], input));
    }
    let r = visitor.into_handlers();
    assert(r.0.dependencies_handled().subrange(0, handle_dependency.dependencies_handled().len() as int)
        =~= handle_dependency.dependencies_handled());
    assert(r.1.warnings_handled().subrange(0, handle_warning.warnings_handled().len() as int)
        =~= handle_warning.warnings_handled());
    r
}

/// What lexing the text `input` in `mode` is known to yield as the
/// dependencies `deps` and the warnings `warnings`: each refers to the text;
/// plain CSS yields only urls and imports; an at-keyword that opens the text
/// and reads `@namespace` gives its warning; where names are scoped locally,
/// a class or id selector that opens the text is reported as a local class or
/// local id.
pub open spec fn lexing_yields<'s>(
    input: &'s str,
    mode: Mode,
    deps: Seq<Dependency<'s>>,
    warnings: Seq<Warning<'s>>,
) -> bool {
    &&& forall|i: int| 0 <= i < deps.len() ==> dependency_wf(input.spec_bytes(), #[trigger] deps[i])
    &&& forall|i: int|
        0 <= i < warnings.len() ==> warning_wf(input.spec_bytes(), #[trigger] warnings[i])
    &&& mode == Mode::Css ==> forall|i: int|
        0 <= i < deps.len() ==> is_css_dependency(#[trigger] deps[i])
    &&& forall|k: int| #![trigger at_keyword_at(input@, 0, k)] at_keyword_at(input@, 0, k) ==> namespace_warned(
        warnings,
        Token::AtKeyword { start: 0, end: byte_offset(input@, k) as u32 },
        input,
    )
    &&& input@.len() > 10 && input@.subrange(0, 10) == "@namespace"@ && !spec_is_ident(input@[10])
        && input@[10] != '\\' ==> warnings.contains(
        Warning {
            range: Range { start: 0, end: 10 },
            kind: WarningKind::NamespaceNotSupportedInBundledCss,
        },
    )
    &&& mode == Mode::Local || mode == Mode::Pure ==> forall|k: int| #![trigger class_at(input@, 0, k)] class_at(input@, 0, k) ==> first_class_named(deps, input, k)
    &&& mode == Mode::Local || mode == Mode::Pure ==> forall|k: int| #![trigger id_at(input@, 0, k)] id_at(input@, 0, k) ==> first_id_named(deps, input, k)
}

/// Lexes `input` as a CSS module whose names are scoped by `mode` and collects
/// its dependencies and warnings, each list in the order found. Every one of
/// them refers to the text of `input`; plain CSS (`Mode::Css`) has only urls
/// and imports as dependencies.
pub fn collect_dependencies<'s>(input: &'s str, mode: Mode) -> (r: (
    Vec<Dependency<'s>>,
    Vec<Warning<'s>>,
))
    requires
        input.spec_bytes().len() <= u32::MAX,
    ensures
        lexing_yields(input, mode, r.0@, r.1@),
{
    let dependencies: Vec<Dependency<'s>> = Vec::new();
    let warnings: Vec<Warning<'s>> = Vec::new();
    let r = lex_dependencies(input, mode, dependencies, warnings);
    assert(forall|i: int| 0 <= i < r.0.len() ==> r.0.dependencies_handled()[i] == r.0@[i]);
    assert(r.0.dependencies_handled() =~= r.0@);
    assert(forall|i: int| 0 <= i < r.1.len() ==> r.1.warnings_handled()[i] == r.1@[i]);
    proof {
        if input@.len() > 10 && input@.subrange(0, 10) == "@namespace"@ && !spec_is_ident(input@[10])
            && input@[10] != '\\' {
            lemma_namespace_opening(input);
            assert(at_keyword_at(input@, 0, 10));
        }
    }
    r
}

} // verus!
