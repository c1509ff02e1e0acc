//! What a CSS module depends on: its imports, urls, local names and replacements.
use vstd::prelude::*;
use vstd::string::StringExecFns;
use vstd::string::StringSliceAdditionalSpecFns;

use crate::lexer::Pos;
use crate::lists::{balanced_items_view, name_list_view, BalancedItems, NameList, MAX_LIST_LEN};
use crate::text::{
    bytes_eq_ignore_ascii_case, bytes_eq_ignore_ascii_case_from, bytes_starts_with,
    bytes_starts_with_from, str_eq, str_starts_with,
};

verus! {

/// A range of byte offsets in the lexed text.
#[derive(Debug, Clone, Copy, Hash, PartialEq, Eq, PartialOrd, Ord, Structural)]
pub struct Range {
    pub start: Pos,
    pub end: Pos,
}

impl Range {
    pub fn new(start: Pos, end: Pos) -> (r: Range)
        ensures
            r.start == start,
            r.end == end,
    {
        Range { start, end }
    }
}

/// How the names of a CSS module are scoped by default.
#[derive(Debug, Clone, Copy, Hash, PartialEq, Eq, Structural)]
pub enum Mode {
    /// Names are local unless marked `:global`.
    Local,
    /// Names are global unless marked `:local`.
    Global,
    /// Like `Local`, and every selector must name a local class or id.
    Pure,
    /// Plain CSS: no names are scoped.
    Css,
}

#[derive(Clone, Copy)]
pub struct ImportData<'s> {
    pub start: Pos,
    pub url: Option<&'s str>,
    pub url_range: Option<Range>,
    pub supports: ImportDataSupports<'s>,
    pub layer: ImportDataLayer<'s>,
}

#[derive(Clone, Copy)]
pub enum ImportDataSupports<'s> {
    Unset,
    InSupports,
    EndSupports { value: &'s str, range: Range },
}

#[derive(Clone, Copy)]
pub enum ImportDataLayer<'s> {
    Unset,
    EndLayer { value: &'s str, range: Range },
}

impl<'s> ImportData<'s> {
    pub fn new(start: Pos) -> (r: ImportData<'s>)
        ensures
            r.start == start,
            r.url is None,
            r.url_range is None,
            r.supports is Unset,
            r.layer is Unset,
    {
        ImportData {
            start,
            url: None,
            url_range: None,
            supports: ImportDataSupports::Unset,
            layer: ImportDataLayer::Unset,
        }
    }

    pub fn in_supports(&self) -> (r: bool)
        ensures
            r == self.supports is InSupports,
    {
        matches!(self.supports, ImportDataSupports::InSupports)
    }

    pub fn layer_range(&self) -> (r: Option<Range>)
        ensures
            r == match self.layer {
                ImportDataLayer::EndLayer { range, .. } => Some(range),
                ImportDataLayer::Unset => None,
            },
    {
        match &self.layer {
            ImportDataLayer::EndLayer { range, .. } => Some(*range),
            ImportDataLayer::Unset => None,
        }
    }

    pub fn supports_range(&self) -> (r: Option<Range>)
        ensures
            r == match self.supports {
                ImportDataSupports::EndSupports { range, .. } => Some(range),
                _ => None,
            },
    {
        match &self.supports {
            ImportDataSupports::EndSupports { range, .. } => Some(*range),
            _ => None,
        }
    }
}

/// What an open parenthesis or function on the balanced stack is.
#[derive(Debug, Clone, Copy, PartialEq, Eq, Structural)]
pub enum BalancedItemKind {
    Url,
    ImageSet,
    Layer,
    Supports,
    PaletteMix,
    LocalFn,
    GlobalFn,
    LocalClass,
    GlobalClass,
    Other,
}

/// `left` is `right` with a `-webkit-`, `-moz-`, `-ms-` or `-o-` prefix (after an
/// `@` when `at_rule`), ignoring ASCII case after the prefix.
pub open spec fn spec_with_vendor_prefixed_eq(left: Seq<u8>, right: Seq<u8>, at_rule: bool) -> bool {
    let off: int = if at_rule { 1 } else { 0 };
    let l = left.subrange(off, left.len() as int);
    &&& (at_rule ==> left.len() > 0 && left[0] == 64)
    &&& {
        ||| prefixed_eq(l, "-webkit-".spec_bytes(), right)
        ||| prefixed_eq(l, "-moz-".spec_bytes(), right)
        ||| prefixed_eq(l, "-ms-".spec_bytes(), right)
        ||| prefixed_eq(l, "-o-".spec_bytes(), right)
    }
}

/// `l` is `prefix` followed by `right`, ignoring ASCII case after the prefix.
pub open spec fn prefixed_eq(l: Seq<u8>, prefix: Seq<u8>, right: Seq<u8>) -> bool {
    bytes_starts_with(l, prefix) && bytes_eq_ignore_ascii_case(
        l.subrange(prefix.len() as int, l.len() as int),
        right,
    )
}

fn prefixed_eq_from(a: &[u8], off: usize, prefix: &str, right: &str) -> (r: bool)
    requires
        off <= a@.len(),
    ensures
        r == prefixed_eq(a@.subrange(off as int, a@.len() as int), prefix.spec_bytes(), right.spec_bytes()),
{
    let p = prefix.as_bytes();
    if bytes_starts_with_from(a, off, p) {
        let ghost l = a@.subrange(off as int, a@.len() as int);
        assert(p@.len() <= l.len());
        assert(a.len() == a@.len());
        assert(a@.subrange(off + p@.len(), a@.len() as int) =~= l.subrange(
            p@.len() as int,
            l.len() as int,
        ));
        bytes_eq_ignore_ascii_case_from(a, off + p.len(), right.as_bytes())
    } else {
        false
    }
}

pub fn with_vendor_prefixed_eq(left: &str, right: &str, at_rule: bool) -> (r: bool)
    ensures
        r == spec_with_vendor_prefixed_eq(left.spec_bytes(), right.spec_bytes(), at_rule),
{
    let a = left.as_bytes();
    let off: usize = if at_rule {
        if a.len() > 0 && a[0] == 64 {
            1
        } else {
            return false;
        }
    } else {
        0
    };
    prefixed_eq_from(a, off, "-webkit-", right) || prefixed_eq_from(a, off, "-moz-", right)
        || prefixed_eq_from(a, off, "-ms-", right) || prefixed_eq_from(a, off, "-o-", right)
}


/// The vendor prefixes of CSS: `-webkit-`, `-moz-`, `-ms-` and `-o-`.
pub open spec fn is_vendor_prefix(p: Seq<u8>) -> bool {
    ||| p == "-webkit-".spec_bytes()
    ||| p == "-moz-".spec_bytes()
    ||| p == "-ms-".spec_bytes()
    ||| p == "-o-".spec_bytes()
}

/// A word made of a vendor prefix and then `right` (in any ASCII case) is
/// `right` with a vendor prefix, and so is the at-keyword made of `@` and
/// that word: `@-webkit-keyframes` is `keyframes` with a vendor prefix as
/// `-moz-keyframes` is.
pub proof fn lemma_vendor_prefixed(prefix: Seq<u8>, name: Seq<u8>, right: Seq<u8>)
    requires
        is_vendor_prefix(prefix),
        bytes_eq_ignore_ascii_case(name, right),
    ensures
        spec_with_vendor_prefixed_eq(prefix + name, right, false),
        spec_with_vendor_prefixed_eq(seq![64u8] + prefix + name, right, true),
{
    let w = prefix + name;
    let a = seq![64u8] + w;
    assert(seq![64u8] + prefix + name =~= a);
    assert(w.subrange(0, w.len() as int) =~= w);
    assert(a.subrange(1, a.len() as int) =~= w);
    assert(w.subrange(0, prefix.len() as int) =~= prefix);
    assert(w.subrange(prefix.len() as int, w.len() as int) =~= name);
    assert(prefixed_eq(w, prefix, right));
}

/// Only such words are `right` with a vendor prefix: a word that is, is a
/// vendor prefix and then `right` in some ASCII case, after an `@` when it is
/// an at-keyword.
pub proof fn lemma_vendor_prefixed_only(left: Seq<u8>, right: Seq<u8>, at_rule: bool)
    requires
        spec_with_vendor_prefixed_eq(left, right, at_rule),
    ensures
        exists|prefix: Seq<u8>, name: Seq<u8>|
            is_vendor_prefix(prefix) && bytes_eq_ignore_ascii_case(name, right) && left == (if at_rule {
                seq![64u8]
            } else {
                Seq::<u8>::empty()
            }) + prefix + name,
{
    let off: int = if at_rule { 1 } else { 0 };
    let l = left.subrange(off, left.len() as int);
    let head: Seq<u8> = if at_rule { seq![64u8] } else { Seq::<u8>::empty() };
    let prefix: Seq<u8> = if prefixed_eq(l, "-webkit-".spec_bytes(), right) {
        "-webkit-".spec_bytes()
    } else if prefixed_eq(l, "-moz-".spec_bytes(), right) {
        "-moz-".spec_bytes()
    } else if prefixed_eq(l, "-ms-".spec_bytes(), right) {
        "-ms-".spec_bytes()
    } else {
        "-o-".spec_bytes()
    };
    let name = l.subrange(prefix.len() as int, l.len() as int);
    assert(prefixed_eq(l, prefix, right));
    assert(l =~= l.subrange(0, prefix.len() as int) + name);
    assert(left =~= head + l);
    assert(left =~= head + prefix + name);
    assert(is_vendor_prefix(prefix));
    assert(bytes_eq_ignore_ascii_case(name, right));
}

/// The kind that `BalancedItemKind::new` gives a function or pseudo class named `name`.
pub open spec fn spec_balanced_kind(name: Seq<u8>) -> BalancedItemKind {
    if name == "url(".spec_bytes() {
        BalancedItemKind::Url
    } else if name == "image-set(".spec_bytes() {
        BalancedItemKind::ImageSet
    } else if spec_with_vendor_prefixed_eq(name, "image-set(".spec_bytes(), false) {
        BalancedItemKind::ImageSet
    } else if name == "layer(".spec_bytes() {
        BalancedItemKind::Layer
    } else if name == "supports(".spec_bytes() {
        BalancedItemKind::Supports
    } else if name == "palette-mix(".spec_bytes() {
        BalancedItemKind::PaletteMix
    } else if name == ":local(".spec_bytes() {
        BalancedItemKind::LocalFn
    } else if name == ":global(".spec_bytes() {
        BalancedItemKind::GlobalFn
    } else if name == ":local".spec_bytes() {
        BalancedItemKind::LocalClass
    } else if name == ":global".spec_bytes() {
        BalancedItemKind::GlobalClass
    } else {
        BalancedItemKind::Other
    }
}

impl BalancedItemKind {
    pub fn new(name: &str) -> (r: BalancedItemKind)
        ensures
            r == spec_balanced_kind(name.spec_bytes()),
    {
        if str_eq(name, "url(") {
            BalancedItemKind::Url
        } else if str_eq(name, "image-set(") {
            BalancedItemKind::ImageSet
        } else if with_vendor_prefixed_eq(name, "image-set(", false) {
            BalancedItemKind::ImageSet
        } else if str_eq(name, "layer(") {
            BalancedItemKind::Layer
        } else if str_eq(name, "supports(") {
            BalancedItemKind::Supports
        } else if str_eq(name, "palette-mix(") {
            BalancedItemKind::PaletteMix
        } else if str_eq(name, ":local(") {
            BalancedItemKind::LocalFn
        } else if str_eq(name, ":global(") {
            BalancedItemKind::GlobalFn
        } else if str_eq(name, ":local") {
            BalancedItemKind::LocalClass
        } else if str_eq(name, ":global") {
            BalancedItemKind::GlobalClass
        } else {
            BalancedItemKind::Other
        }
    }

    pub open spec fn spec_is_mode_local(self) -> bool {
        self is LocalFn || self is LocalClass
    }

    pub open spec fn spec_is_mode_global(self) -> bool {
        self is GlobalFn || self is GlobalClass
    }

    pub open spec fn spec_is_mode_function(self) -> bool {
        self is LocalFn || self is GlobalFn
    }

    pub open spec fn spec_is_mode_class(self) -> bool {
        self is LocalClass || self is GlobalClass
    }

    pub fn is_mode_local(&self) -> (r: bool)
        ensures
            r == self.spec_is_mode_local(),
    {
        matches!(self, BalancedItemKind::LocalFn | BalancedItemKind::LocalClass)
    }

    pub fn is_mode_global(&self) -> (r: bool)
        ensures
            r == self.spec_is_mode_global(),
    {
        matches!(self, BalancedItemKind::GlobalFn | BalancedItemKind::GlobalClass)
    }

    pub fn is_mode_function(&self) -> (r: bool)
        ensures
            r == self.spec_is_mode_function(),
    {
        matches!(self, BalancedItemKind::LocalFn | BalancedItemKind::GlobalFn)
    }

    pub fn is_mode_class(&self) -> (r: bool)
        ensures
            r == self.spec_is_mode_class(),
    {
        matches!(self, BalancedItemKind::LocalClass | BalancedItemKind::GlobalClass)
    }
}

/// An open parenthesis or function, with the range of its opening token.
#[derive(Debug, Clone, Copy, PartialEq, Eq, Structural)]
pub struct BalancedItem {
    pub kind: BalancedItemKind,
    pub range: Range,
}

impl BalancedItem {
    pub fn new(name: &str, start: Pos, end: Pos) -> (r: BalancedItem)
        ensures
            r.kind == spec_balanced_kind(name.spec_bytes()),
            r.range == (Range { start, end }),
    {
        BalancedItem { kind: BalancedItemKind::new(name), range: Range::new(start, end) }
    }

    pub fn new_other(start: Pos, end: Pos) -> (r: BalancedItem)
        ensures
            r.kind == BalancedItemKind::Other,
            r.range == (Range { start, end }),
    {
        BalancedItem { kind: BalancedItemKind::Other, range: Range::new(start, end) }
    }
}

/// The scoping state of a CSS module.
pub struct ModeData<'s> {
    pub default: Mode,
    pub current: Mode,
    pub property: Mode,
    pub resulting_global: Option<Pos>,
    pub pure_global: Option<Pos>,
    pub composes_local_classes: ComposesLocalClasses<'s>,
    pub inside_mode_function: u32,
    pub inside_mode_class: u32,
}

impl<'s> ModeData<'s> {
    /// None of the modes is `Css`: plain CSS keeps no mode data.
    pub open spec fn wf(self) -> bool {
        &&& self.default != Mode::Css
        &&& self.current != Mode::Css
        &&& self.property != Mode::Css
    }

    pub fn new(default: Mode) -> (r: ModeData<'s>)
        ensures
            default != Mode::Css ==> r.wf(),
            r.default == default,
            r.current == default,
            r.property == default,
            r.resulting_global is None,
            r.pure_global == Some(0u32),
            r.composes_local_classes.is_single is Initial,
            name_list_view(r.composes_local_classes.local_classes).len() == 0,
            r.inside_mode_function == 0,
            r.inside_mode_class == 0,
    {
        ModeData {
            default,
            current: default,
            property: default,
            resulting_global: None,
            pure_global: Some(0),
            composes_local_classes: ComposesLocalClasses::new(),
            inside_mode_function: 0,
            inside_mode_class: 0,
        }
    }

    pub fn is_pure_mode(&self) -> (r: bool)
        ensures
            r == (self.default == Mode::Pure),
    {
        self.default == Mode::Pure
    }

    pub fn is_current_local_mode(&self) -> (r: bool)
        requires
            self.current != Mode::Css,
        ensures
            r == (self.current == Mode::Local || self.current == Mode::Pure),
    {
        match self.current {
            Mode::Local | Mode::Pure => true,
            _ => false,
        }
    }

    pub fn is_property_local_mode(&self) -> (r: bool)
        requires
            self.property != Mode::Css,
        ensures
            r == (self.property == Mode::Local || self.property == Mode::Pure),
    {
        match self.property {
            Mode::Local | Mode::Pure => true,
            _ => false,
        }
    }

    pub fn default_mode(&self) -> (r: Mode)
        ensures
            r == self.default,
    {
        self.default
    }

    pub fn set_current_mode(&mut self, mode: Mode)
        ensures
            *final(self) == (ModeData { current: mode, ..*old(self) }),
    {
        self.current = mode;
    }

    pub fn set_property_mode(&mut self, mode: Mode)
        ensures
            *final(self) == (ModeData { property: mode, ..*old(self) }),
    {
        self.property = mode;
    }

    pub fn is_inside_mode_function(&self) -> (r: bool)
        ensures
            r == (self.inside_mode_function > 0),
    {
        self.inside_mode_function > 0
    }

    pub fn is_inside_mode_class(&self) -> (r: bool)
        ensures
            r == (self.inside_mode_class > 0),
    {
        self.inside_mode_class > 0
    }

    pub fn is_mode_explicit(&self) -> (r: bool)
        ensures
            r == (self.inside_mode_function > 0 || self.inside_mode_class > 0),
    {
        self.is_inside_mode_function() || self.is_inside_mode_class()
    }
}

/// Whether the selector of the current rule is a single local class.
#[derive(Debug, Clone, Copy, PartialEq, Eq, Structural)]
pub enum SingleLocalClass {
    Initial,
    Single(Range),
    AtKeyword,
    Invalid,
}

/// The local classes a `composes` declaration of the current rule would compose into.
pub struct ComposesLocalClasses<'s> {
    pub is_single: SingleLocalClass,
    pub local_classes: NameList<'s>,
}

impl<'s> ComposesLocalClasses<'s> {
    pub fn new() -> (r: ComposesLocalClasses<'s>)
        ensures
            r.is_single is Initial,
            name_list_view(r.local_classes).len() == 0,
    {
        ComposesLocalClasses { is_single: SingleLocalClass::Initial, local_classes: NameList::new() }
    }

    pub fn invalidate(&mut self)
        ensures
            final(self).local_classes == old(self).local_classes,
            final(self).is_single == if old(self).is_single is AtKeyword {
                SingleLocalClass::AtKeyword
            } else {
                SingleLocalClass::Invalid
            },
    {
        if !matches!(self.is_single, SingleLocalClass::AtKeyword) {
            self.is_single = SingleLocalClass::Invalid
        }
    }

    pub fn find_local_class(&mut self, start: Pos, end: Pos)
        ensures
            final(self).local_classes == old(self).local_classes,
            final(self).is_single == match old(self).is_single {
                SingleLocalClass::Initial => SingleLocalClass::Single(Range { start, end }),
                SingleLocalClass::Single(_) => SingleLocalClass::Invalid,
                other => other,
            },
    {
        match self.is_single {
            SingleLocalClass::Initial => {
                self.is_single = SingleLocalClass::Single(Range::new(start, end))
            },
            SingleLocalClass::Single(_) => self.is_single = SingleLocalClass::Invalid,
            _ => {},
        };
    }

    pub fn find_at_keyword(&mut self)
        ensures
            final(self).local_classes == old(self).local_classes,
            final(self).is_single is AtKeyword,
    {
        self.is_single = SingleLocalClass::AtKeyword;
    }

    pub fn reset_to_initial(&mut self)
        ensures
            final(self).local_classes == old(self).local_classes,
            final(self).is_single is Initial,
    {
        self.is_single = SingleLocalClass::Initial;
    }
}

/// The reserved words of a property whose other identifiers are local names.
pub trait ReservedValues: Sized {
    /// What `check` answers for the word `ident`.
    spec fn spec_check(&self, ident: Seq<u8>) -> bool;

    /// The words seen after `check` of the word `ident`.
    spec fn after_check(&self, ident: Seq<u8>) -> Self;

    /// The words seen after `reset`.
    spec fn after_reset(&self) -> Self;

    /// `false` when `ident` is a reserved word of the property, seen for the first time.
    fn check(&mut self, ident: &str) -> (r: bool)
        ensures
            r == old(self).spec_check(ident.spec_bytes()),
            *final(self) == old(self).after_check(ident.spec_bytes()),
    ;

    /// Forgets the words seen so far.
    fn reset(&mut self)
        ensures
            *final(self) == old(self).after_reset(),
    ;
}

/// Tracks an `animation`-like, `list-style`-like or `font-palette` property whose value may
/// name a local keyframes, counter style or palette.
#[derive(Clone, Copy)]
pub struct InProperty<T: ReservedValues> {
    pub reserved: T,
    pub rename: Option<Range>,
    pub balanced_len: usize,
}

impl<T: ReservedValues> InProperty<T> {
    pub fn new(reserved: T, balanced_len: usize) -> (r: InProperty<T>)
        ensures
            r.reserved == reserved,
            r.rename is None,
            r.balanced_len == balanced_len,
    {
        InProperty { reserved, rename: None, balanced_len }
    }

    fn check_reserved(&mut self, ident: &str) -> (r: bool)
        ensures
            r == old(self).reserved.spec_check(ident.spec_bytes()),
            *final(self) == (InProperty {
                reserved: old(self).reserved.after_check(ident.spec_bytes()),
                ..*old(self)
            }),
    {
        self.reserved.check(ident)
    }

    pub fn reset_reserved(&mut self)
        ensures
            *final(self) == (InProperty { reserved: old(self).reserved.after_reset(), ..*old(self) }),
    {
        self.reserved.reset();
    }

    /// Records `range` as the name to rename unless `ident` is a reserved word.
    pub fn set_rename(&mut self, ident: &str, range: Range)
        ensures
            final(self).reserved == old(self).reserved.after_check(ident.spec_bytes()),
            final(self).rename == if old(self).reserved.spec_check(ident.spec_bytes()) {
                Some(range)
            } else {
                old(self).rename
            },
            final(self).balanced_len == old(self).balanced_len,
    {
        if self.check_reserved(ident) {
            self.rename = Some(range);
        }
    }

    /// Takes the name to rename, unless the cursor is inside a function.
    pub fn take_rename(&mut self, balanced_len: usize) -> (r: Option<Range>)
        ensures
            final(self).reserved == old(self).reserved,
            final(self).balanced_len == old(self).balanced_len,
            balanced_len != old(self).balanced_len ==> r is None && final(self).rename
                == old(self).rename,
            balanced_len == old(self).balanced_len ==> r == old(self).rename
                && final(self).rename is None,
    {
        if balanced_len != self.balanced_len {
            return None;
        }
        let r = self.rename;
        self.rename = None;
        r
    }
}


/// The mode the innermost `:local`/`:global` item of `items` selects, or `default`.
pub open spec fn spec_topmost_mode(items: Seq<BalancedItem>, default: Mode) -> Mode
    decreases items.len(),
{
    if items.len() == 0 {
        default
    } else if items.last().kind.spec_is_mode_local() {
        Mode::Local
    } else if items.last().kind.spec_is_mode_global() {
        Mode::Global
    } else {
        spec_topmost_mode(items.drop_last(), default)
    }
}

/// The innermost mode of a stack is never plain CSS when the default is not.
pub proof fn lemma_topmost_mode_not_css(items: Seq<BalancedItem>, default: Mode)
    requires
        default != Mode::Css,
    ensures
        spec_topmost_mode(items, default) != Mode::Css,
    decreases items.len(),
{
    if items.len() > 0 {
        lemma_topmost_mode_not_css(items.drop_last(), default);
    }
}

pub open spec fn inc(x: u32) -> u32 {
    if x < u32::MAX {
        (x + 1) as u32
    } else {
        x
    }
}

pub open spec fn dec(x: u32) -> u32 {
    if x > 0 {
        (x - 1) as u32
    } else {
        0
    }
}

/// The mode data once an item of `kind` is pushed.
pub open spec fn mode_data_after_push<'s>(m: ModeData<'s>, kind: BalancedItemKind) -> ModeData<'s> {
    ModeData {
        current: if kind.spec_is_mode_local() {
            Mode::Local
        } else if kind.spec_is_mode_global() {
            Mode::Global
        } else {
            m.current
        },
        inside_mode_function: if kind.spec_is_mode_function() {
            inc(m.inside_mode_function)
        } else {
            m.inside_mode_function
        },
        inside_mode_class: if !kind.spec_is_mode_function() && kind.spec_is_mode_class() {
            inc(m.inside_mode_class)
        } else {
            m.inside_mode_class
        },
        ..m
    }
}

/// `n` lowered by `k`, but not below zero.
pub open spec fn dec_by(n: u32, k: int) -> u32 {
    if k <= n {
        (n - k) as u32
    } else {
        0
    }
}

/// The stack of open parentheses, functions and `:local`/`:global` pseudo classes.
pub struct BalancedStack(pub BalancedItems);

impl View for BalancedStack {
    type V = Seq<BalancedItem>;

    open spec fn view(&self) -> Seq<BalancedItem> {
        balanced_items_view(self.0)
    }
}

impl BalancedStack {
    pub fn new() -> (r: BalancedStack)
        ensures
            r@ == Seq::<BalancedItem>::empty(),
    {
        BalancedStack(BalancedItems::new())
    }

    pub fn len(&self) -> (r: usize)
        ensures
            r == self@.len(),
    {
        self.0.len()
    }

    pub fn last(&self) -> (r: Option<BalancedItem>)
        ensures
            r == if self@.len() == 0 {
                None
            } else {
                Some(self@.last())
            },
    {
        let n = self.0.len();
        if n == 0 {
            None
        } else {
            Some(self.0.get(n - 1))
        }
    }

    pub fn is_empty(&self) -> (r: bool)
        ensures
            r == (self@.len() == 0),
    {
        self.0.len() == 0
    }

    /// Pushes `item`; a `:local`/`:global` item switches the current mode and
    /// counts as explicit scoping. A stack of `MAX_LIST_LEN` items stays as it is.
    pub fn push<'s>(&mut self, item: BalancedItem, mode_data: &mut Option<ModeData<'s>>)
        ensures
            old(self)@.len() < MAX_LIST_LEN ==> final(self)@ == old(self)@.push(item),
            old(self)@.len() >= MAX_LIST_LEN ==> final(self)@ == old(self)@,
            *final(mode_data) == match *old(mode_data) {
                Some(m) => Some(mode_data_after_push(m, item.kind)),
                None => None,
            },
    {
        if let Some(mode_data) = mode_data {
            if item.kind.is_mode_local() {
                mode_data.set_current_mode(Mode::Local);
            } else if item.kind.is_mode_global() {
                mode_data.set_current_mode(Mode::Global);
            }
            if item.kind.is_mode_function() {
                mode_data.inside_mode_function = mode_data.inside_mode_function.saturating_add(1);
            } else if item.kind.is_mode_class() {
                mode_data.inside_mode_class = mode_data.inside_mode_class.saturating_add(1);
            }
        }
        if self.0.len() < MAX_LIST_LEN {
            self.0.push(item);
        }
    }

    /// Pops the top item, leaving the scoping of the items below.
    pub fn pop<'s>(&mut self, mode_data: &mut Option<ModeData<'s>>) -> (r: Option<BalancedItem>)
        ensures
            old(self)@.len() == 0 ==> r is None && final(self)@ == old(self)@ && *final(mode_data) == *old(mode_data),
            old(self)@.len() > 0 ==> r == Some(old(self)@.last()) && final(self)@ == old(self)@.drop_last() && *final(mode_data) == match *old(mode_data) {
                Some(m) => Some(
                    ModeData {
                        current: spec_topmost_mode(final(self)@, m.default),
                        inside_mode_function: if old(self)@.last().kind.spec_is_mode_function() {
                            dec(m.inside_mode_function)
                        } else {
                            m.inside_mode_function
                        },
                        inside_mode_class: if !old(self)@.last().kind.spec_is_mode_function()
                            && old(self)@.last().kind.spec_is_mode_class() {
                            dec(m.inside_mode_class)
                        } else {
                            m.inside_mode_class
                        },
                        ..m
                    },
                ),
                None => None,
            },
    {
        let item = self.0.pop()?;
        if let Some(mode_data) = mode_data {
            if item.kind.is_mode_function() {
                mode_data.inside_mode_function = mode_data.inside_mode_function.saturating_sub(1);
            } else if item.kind.is_mode_class() {
                mode_data.inside_mode_class = mode_data.inside_mode_class.saturating_sub(1);
            }
            self.update_current_mode(mode_data);
        }
        Some(item)
    }

    pub fn pop_without_moda_data(&mut self) -> (r: Option<BalancedItem>)
        ensures
            old(self)@.len() == 0 ==> r is None && final(self)@ == old(self)@,
            old(self)@.len() > 0 ==> r == Some(old(self)@.last()) && final(self)@ == old(self)@.drop_last(),
    {
        self.0.pop()
    }

    /// Pops the `:local`/`:global` pseudo classes on top of the stack and
    /// updates the current mode.
    pub fn pop_mode_pseudo_class<'s>(&mut self, mode_data: &mut ModeData<'s>)
        ensures
            final(self)@.len() <= old(self)@.len(),
            final(self)@ == old(self)@.subrange(0, final(self)@.len() as int),
            forall|i: int|
                final(self)@.len() <= i < old(self)@.len() ==> (#[trigger] old(self)@[i]).kind.spec_is_mode_class(),
            final(self)@.len() > 0 ==> !final(self)@.last().kind.spec_is_mode_class(),
            *final(mode_data) == (ModeData {
                current: spec_topmost_mode(final(self)@, old(mode_data).default),
                inside_mode_class: dec_by(
                    old(mode_data).inside_mode_class,
                    old(self)@.len() - final(self)@.len(),
                ),
                ..*old(mode_data)
            }),
    {
        loop
            invariant
                self@.len() <= old(self)@.len(),
                self@ == old(self)@.subrange(0, self@.len() as int),
                forall|i: int|
                    self@.len() <= i < old(self)@.len() ==> (#[trigger] old(self)@[i]).kind.spec_is_mode_class(),
                *mode_data == (ModeData {
                    inside_mode_class: dec_by(
                        old(mode_data).inside_mode_class,
                        old(self)@.len() - self@.len(),
                    ),
                    ..*old(mode_data)
                }),
            ensures
                self@.len() <= old(self)@.len(),
                self@ == old(self)@.subrange(0, self@.len() as int),
                forall|i: int|
                    self@.len() <= i < old(self)@.len() ==> (#[trigger] old(self)@[i]).kind.spec_is_mode_class(),
                self@.len() > 0 ==> !self@.last().kind.spec_is_mode_class(),
                *mode_data == (ModeData {
                    inside_mode_class: dec_by(
                        old(mode_data).inside_mode_class,
                        old(self)@.len() - self@.len(),
                    ),
                    ..*old(mode_data)
                }),
            decreases self@.len(),
        {
            match self.last() {
                Some(last) => {
                    if matches!(last.kind, BalancedItemKind::LocalClass | BalancedItemKind::GlobalClass) {
                        mode_data.inside_mode_class = mode_data.inside_mode_class.saturating_sub(1);
                        let _ = self.0.pop();
                        assert(self@ =~= old(self)@.subrange(0, self@.len() as int));
                    } else {
                        break ;
                    }
                },
                None => break ,
            }
        }
        self.update_current_mode(mode_data);
    }

    pub fn update_current_mode<'s>(&self, mode_data: &mut ModeData<'s>)
        ensures
            *final(mode_data) == (ModeData {
                current: spec_topmost_mode(self@, old(mode_data).default),
                ..*old(mode_data)
            }),
    {
        let mode = self.topmost_mode(mode_data);
        mode_data.set_current_mode(mode);
    }

    pub fn update_property_mode<'s>(&self, mode_data: &mut ModeData<'s>)
        ensures
            *final(mode_data) == (ModeData {
                property: spec_topmost_mode(self@, old(mode_data).default),
                ..*old(mode_data)
            }),
    {
        let mode = self.topmost_mode(mode_data);
        mode_data.set_property_mode(mode);
    }

    fn topmost_mode<'s>(&self, mode_data: &ModeData<'s>) -> (r: Mode)
        ensures
            r == spec_topmost_mode(self@, mode_data.default),
    {
        let mut i = self.0.len();
        assert(self@.subrange(0, i as int) =~= self@);
        while i > 0
            invariant
                i <= self@.len(),
                spec_topmost_mode(self@, mode_data.default) == spec_topmost_mode(
                    self@.subrange(0, i as int),
                    mode_data.default,
                ),
            decreases i,
        {
            let item = self.0.get(i - 1);
            let ghost prefix = self@.subrange(0, i as int);
            assert(prefix.last() == item);
            assert(prefix.drop_last() =~= self@.subrange(0, i - 1));
            if item.kind.is_mode_local() {
                return Mode::Local;
            } else if item.kind.is_mode_global() {
                return Mode::Global;
            }
            i = i - 1;
        }
        assert(self@.subrange(0, 0) =~= Seq::<BalancedItem>::empty());
        mode_data.default_mode()
    }
}


pub const ANIMATION_NORMAL: u32 = 1 << 0;
pub const ANIMATION_REVERSE: u32 = 1 << 1;
pub const ANIMATION_ALTERNATE: u32 = 1 << 2;
pub const ANIMATION_ALTERNATE_REVERSE: u32 = 1 << 3;
pub const ANIMATION_FORWARDS: u32 = 1 << 4;
pub const ANIMATION_BACKWARDS: u32 = 1 << 5;
pub const ANIMATION_BOTH: u32 = 1 << 6;
pub const ANIMATION_INFINITE: u32 = 1 << 7;
pub const ANIMATION_PAUSED: u32 = 1 << 8;
pub const ANIMATION_RUNNING: u32 = 1 << 9;
pub const ANIMATION_EASE: u32 = 1 << 10;
pub const ANIMATION_EASE_IN: u32 = 1 << 11;
pub const ANIMATION_EASE_OUT: u32 = 1 << 12;
pub const ANIMATION_EASE_IN_OUT: u32 = 1 << 13;
pub const ANIMATION_LINEAR: u32 = 1 << 14;
pub const ANIMATION_STEP_END: u32 = 1 << 15;
pub const ANIMATION_STEP_START: u32 = 1 << 16;

/// The bit that records an `animation` keyword, or 0 for any other identifier.
pub open spec fn spec_animation_keyword_bit(b: Seq<u8>) -> u32 {
    if b == "normal".spec_bytes() {
        ANIMATION_NORMAL
    } else if b == "reverse".spec_bytes() {
        ANIMATION_REVERSE
    } else if b == "alternate".spec_bytes() {
        ANIMATION_ALTERNATE
    } else if b == "alternate-reverse".spec_bytes() {
        ANIMATION_ALTERNATE_REVERSE
    } else if b == "forwards".spec_bytes() {
        ANIMATION_FORWARDS
    } else if b == "backwards".spec_bytes() {
        ANIMATION_BACKWARDS
    } else if b == "both".spec_bytes() {
        ANIMATION_BOTH
    } else if b == "infinite".spec_bytes() {
        ANIMATION_INFINITE
    } else if b == "paused".spec_bytes() {
        ANIMATION_PAUSED
    } else if b == "running".spec_bytes() {
        ANIMATION_RUNNING
    } else if b == "ease".spec_bytes() {
        ANIMATION_EASE
    } else if b == "ease-in".spec_bytes() {
        ANIMATION_EASE_IN
    } else if b == "ease-out".spec_bytes() {
        ANIMATION_EASE_OUT
    } else if b == "ease-in-out".spec_bytes() {
        ANIMATION_EASE_IN_OUT
    } else if b == "linear".spec_bytes() {
        ANIMATION_LINEAR
    } else if b == "step-end".spec_bytes() {
        ANIMATION_STEP_END
    } else if b == "step-start".spec_bytes() {
        ANIMATION_STEP_START
    } else {
        0
    }
}

fn animation_keyword_bit(ident: &str) -> (r: u32)
    ensures
        r == spec_animation_keyword_bit(ident.spec_bytes()),
{
    if str_eq(ident, "normal") {
        ANIMATION_NORMAL
    } else if str_eq(ident, "reverse") {
        ANIMATION_REVERSE
    } else if str_eq(ident, "alternate") {
        ANIMATION_ALTERNATE
    } else if str_eq(ident, "alternate-reverse") {
        ANIMATION_ALTERNATE_REVERSE
    } else if str_eq(ident, "forwards") {
        ANIMATION_FORWARDS
    } else if str_eq(ident, "backwards") {
        ANIMATION_BACKWARDS
    } else if str_eq(ident, "both") {
        ANIMATION_BOTH
    } else if str_eq(ident, "infinite") {
        ANIMATION_INFINITE
    } else if str_eq(ident, "paused") {
        ANIMATION_PAUSED
    } else if str_eq(ident, "running") {
        ANIMATION_RUNNING
    } else if str_eq(ident, "ease") {
        ANIMATION_EASE
    } else if str_eq(ident, "ease-in") {
        ANIMATION_EASE_IN
    } else if str_eq(ident, "ease-out") {
        ANIMATION_EASE_OUT
    } else if str_eq(ident, "ease-in-out") {
        ANIMATION_EASE_IN_OUT
    } else if str_eq(ident, "linear") {
        ANIMATION_LINEAR
    } else if str_eq(ident, "step-end") {
        ANIMATION_STEP_END
    } else if str_eq(ident, "step-start") {
        ANIMATION_STEP_START
    } else {
        0
    }
}

/// `none` and the CSS-wide keywords, which name no animation.
pub open spec fn spec_is_animation_none_or_wide(b: Seq<u8>) -> bool {
    ||| b == "none".spec_bytes()
    ||| b == "initial".spec_bytes()
    ||| b == "inherit".spec_bytes()
    ||| b == "unset".spec_bytes()
    ||| b == "revert".spec_bytes()
    ||| b == "revert-layer".spec_bytes()
}

fn is_animation_none_or_wide(ident: &str) -> (r: bool)
    ensures
        r == spec_is_animation_none_or_wide(ident.spec_bytes()),
{
    str_eq(ident, "none")
        || str_eq(ident, "initial")
        || str_eq(ident, "inherit")
        || str_eq(ident, "unset")
        || str_eq(ident, "revert")
        || str_eq(ident, "revert-layer")
}

/// The keywords of the `animation` shorthand that are not `none` or
/// CSS-wide: its directions, fill modes, iteration count, play states and
/// timing functions.
pub open spec fn is_animation_keyword(b: Seq<u8>) -> bool {
    ||| "normal".spec_bytes() == b
    ||| "reverse".spec_bytes() == b
    ||| "alternate".spec_bytes() == b
    ||| "alternate-reverse".spec_bytes() == b
    ||| "forwards".spec_bytes() == b
    ||| "backwards".spec_bytes() == b
    ||| "both".spec_bytes() == b
    ||| "infinite".spec_bytes() == b
    ||| "paused".spec_bytes() == b
    ||| "running".spec_bytes() == b
    ||| "ease".spec_bytes() == b
    ||| "ease-in".spec_bytes() == b
    ||| "ease-out".spec_bytes() == b
    ||| "ease-in-out".spec_bytes() == b
    ||| "linear".spec_bytes() == b
    ||| "step-end".spec_bytes() == b
    ||| "step-start".spec_bytes() == b
}

/// `none` and the keywords that every CSS property takes.
pub open spec fn is_none_or_css_wide_keyword(b: Seq<u8>) -> bool {
    ||| "none".spec_bytes() == b
    ||| "initial".spec_bytes() == b
    ||| "inherit".spec_bytes() == b
    ||| "unset".spec_bytes() == b
    ||| "revert".spec_bytes() == b
    ||| "revert-layer".spec_bytes() == b
}

proof fn lemma_bit_first_and_again(bits: u32, bit: u32)
    requires
        bit != 0,
    ensures
        0u32 & bit != bit,
        (bits | bit) & bit == bit,
{
    assert(0u32 & bit != bit) by (bit_vector)
        requires
            bit != 0,
    ;
    assert((bits | bit) & bit == bit) by (bit_vector);
}

proof fn lemma_animation_bits_nonzero()
    ensures
        ANIMATION_NORMAL != 0,
        ANIMATION_REVERSE != 0,
        ANIMATION_ALTERNATE != 0,
        ANIMATION_ALTERNATE_REVERSE != 0,
        ANIMATION_FORWARDS != 0,
        ANIMATION_BACKWARDS != 0,
        ANIMATION_BOTH != 0,
        ANIMATION_INFINITE != 0,
        ANIMATION_PAUSED != 0,
        ANIMATION_RUNNING != 0,
        ANIMATION_EASE != 0,
        ANIMATION_EASE_IN != 0,
        ANIMATION_EASE_OUT != 0,
        ANIMATION_EASE_IN_OUT != 0,
        ANIMATION_LINEAR != 0,
        ANIMATION_STEP_END != 0,
        ANIMATION_STEP_START != 0,
{
    assert(ANIMATION_NORMAL != 0 && ANIMATION_REVERSE != 0 && ANIMATION_ALTERNATE != 0
        && ANIMATION_ALTERNATE_REVERSE != 0 && ANIMATION_FORWARDS != 0 && ANIMATION_BACKWARDS != 0
        && ANIMATION_BOTH != 0 && ANIMATION_INFINITE != 0 && ANIMATION_PAUSED != 0
        && ANIMATION_RUNNING != 0 && ANIMATION_EASE != 0 && ANIMATION_EASE_IN != 0
        && ANIMATION_EASE_OUT != 0 && ANIMATION_EASE_IN_OUT != 0 && ANIMATION_LINEAR != 0
        && ANIMATION_STEP_END != 0 && ANIMATION_STEP_START != 0) by (bit_vector);
}

/// The bytes of the words of the `animation` shorthand.
proof fn lemma_animation_words()
    ensures
        "normal".spec_bytes() == seq![110u8, 111u8, 114u8, 109u8, 97u8, 108u8],
        "reverse".spec_bytes() == seq![114u8, 101u8, 118u8, 101u8, 114u8, 115u8, 101u8],
        "alternate".spec_bytes() == seq![97u8, 108u8, 116u8, 101u8, 114u8, 110u8, 97u8, 116u8, 101u8],
        "alternate-reverse".spec_bytes() == seq![97u8, 108u8, 116u8, 101u8, 114u8, 110u8, 97u8, 116u8, 101u8, 45u8, 114u8, 101u8, 118u8, 101u8, 114u8, 115u8, 101u8],
        "forwards".spec_bytes() == seq![102u8, 111u8, 114u8, 119u8, 97u8, 114u8, 100u8, 115u8],
        "backwards".spec_bytes() == seq![98u8, 97u8, 99u8, 107u8, 119u8, 97u8, 114u8, 100u8, 115u8],
        "both".spec_bytes() == seq![98u8, 111u8, 116u8, 104u8],
        "infinite".spec_bytes() == seq![105u8, 110u8, 102u8, 105u8, 110u8, 105u8, 116u8, 101u8],
        "paused".spec_bytes() == seq![112u8, 97u8, 117u8, 115u8, 101u8, 100u8],
        "running".spec_bytes() == seq![114u8, 117u8, 110u8, 110u8, 105u8, 110u8, 103u8],
        "ease".spec_bytes() == seq![101u8, 97u8, 115u8, 101u8],
        "ease-in".spec_bytes() == seq![101u8, 97u8, 115u8, 101u8, 45u8, 105u8, 110u8],
        "ease-out".spec_bytes() == seq![101u8, 97u8, 115u8, 101u8, 45u8, 111u8, 117u8, 116u8],
        "ease-in-out".spec_bytes() == seq![101u8, 97u8, 115u8, 101u8, 45u8, 105u8, 110u8, 45u8, 111u8, 117u8, 116u8],
        "linear".spec_bytes() == seq![108u8, 105u8, 110u8, 101u8, 97u8, 114u8],
        "step-end".spec_bytes() == seq![115u8, 116u8, 101u8, 112u8, 45u8, 101u8, 110u8, 100u8],
        "step-start".spec_bytes() == seq![115u8, 116u8, 101u8, 112u8, 45u8, 115u8, 116u8, 97u8, 114u8, 116u8],
        "none".spec_bytes() == seq![110u8, 111u8, 110u8, 101u8],
        "initial".spec_bytes() == seq![105u8, 110u8, 105u8, 116u8, 105u8, 97u8, 108u8],
        "inherit".spec_bytes() == seq![105u8, 110u8, 104u8, 101u8, 114u8, 105u8, 116u8],
        "unset".spec_bytes() == seq![117u8, 110u8, 115u8, 101u8, 116u8],
        "revert".spec_bytes() == seq![114u8, 101u8, 118u8, 101u8, 114u8, 116u8],
        "revert-layer".spec_bytes() == seq![114u8, 101u8, 118u8, 101u8, 114u8, 116u8, 45u8, 108u8, 97u8, 121u8, 101u8, 114u8],
{
    reveal_strlit("normal");
    vstd::string::is_ascii_spec_bytes("normal");
    reveal_strlit("reverse");
    vstd::string::is_ascii_spec_bytes("reverse");
    reveal_strlit("alternate");
    vstd::string::is_ascii_spec_bytes("alternate");
    reveal_strlit("alternate-reverse");
    vstd::string::is_ascii_spec_bytes("alternate-reverse");
    reveal_strlit("forwards");
    vstd::string::is_ascii_spec_bytes("forwards");
    reveal_strlit("backwards");
    vstd::string::is_ascii_spec_bytes("backwards");
    reveal_strlit("both");
    vstd::string::is_ascii_spec_bytes("both");
    reveal_strlit("infinite");
    vstd::string::is_ascii_spec_bytes("infinite");
    reveal_strlit("paused");
    vstd::string::is_ascii_spec_bytes("paused");
    reveal_strlit("running");
    vstd::string::is_ascii_spec_bytes("running");
    reveal_strlit("ease");
    vstd::string::is_ascii_spec_bytes("ease");
    reveal_strlit("ease-in");
    vstd::string::is_ascii_spec_bytes("ease-in");
    reveal_strlit("ease-out");
    vstd::string::is_ascii_spec_bytes("ease-out");
    reveal_strlit("ease-in-out");
    vstd::string::is_ascii_spec_bytes("ease-in-out");
    reveal_strlit("linear");
    vstd::string::is_ascii_spec_bytes("linear");
    reveal_strlit("step-end");
    vstd::string::is_ascii_spec_bytes("step-end");
    reveal_strlit("step-start");
    vstd::string::is_ascii_spec_bytes("step-start");
    reveal_strlit("none");
    vstd::string::is_ascii_spec_bytes("none");
    reveal_strlit("initial");
    vstd::string::is_ascii_spec_bytes("initial");
    reveal_strlit("inherit");
    vstd::string::is_ascii_spec_bytes("inherit");
    reveal_strlit("unset");
    vstd::string::is_ascii_spec_bytes("unset");
    reveal_strlit("revert");
    vstd::string::is_ascii_spec_bytes("revert");
    reveal_strlit("revert-layer");
    vstd::string::is_ascii_spec_bytes("revert-layer");
    assert("normal".spec_bytes() =~= seq![110u8, 111u8, 114u8, 109u8, 97u8, 108u8]);
    assert("reverse".spec_bytes() =~= seq![114u8, 101u8, 118u8, 101u8, 114u8, 115u8, 101u8]);
    assert("alternate".spec_bytes() =~= seq![97u8, 108u8, 116u8, 101u8, 114u8, 110u8, 97u8, 116u8, 101u8]);
    assert("alternate-reverse".spec_bytes() =~= seq![97u8, 108u8, 116u8, 101u8, 114u8, 110u8, 97u8, 116u8, 101u8, 45u8, 114u8, 101u8, 118u8, 101u8, 114u8, 115u8, 101u8]);
    assert("forwards".spec_bytes() =~= seq![102u8, 111u8, 114u8, 119u8, 97u8, 114u8, 100u8, 115u8]);
    assert("backwards".spec_bytes() =~= seq![98u8, 97u8, 99u8, 107u8, 119u8, 97u8, 114u8, 100u8, 115u8]);
    assert("both".spec_bytes() =~= seq![98u8, 111u8, 116u8, 104u8]);
    assert("infinite".spec_bytes() =~= seq![105u8, 110u8, 102u8, 105u8, 110u8, 105u8, 116u8, 101u8]);
    assert("paused".spec_bytes() =~= seq![112u8, 97u8, 117u8, 115u8, 101u8, 100u8]);
    assert("running".spec_bytes() =~= seq![114u8, 117u8, 110u8, 110u8, 105u8, 110u8, 103u8]);
    assert("ease".spec_bytes() =~= seq![101u8, 97u8, 115u8, 101u8]);
    assert("ease-in".spec_bytes() =~= seq![101u8, 97u8, 115u8, 101u8, 45u8, 105u8, 110u8]);
    assert("ease-out".spec_bytes() =~= seq![101u8, 97u8, 115u8, 101u8, 45u8, 111u8, 117u8, 116u8]);
    assert("ease-in-out".spec_bytes() =~= seq![101u8, 97u8, 115u8, 101u8, 45u8, 105u8, 110u8, 45u8, 111u8, 117u8, 116u8]);
    assert("linear".spec_bytes() =~= seq![108u8, 105u8, 110u8, 101u8, 97u8, 114u8]);
    assert("step-end".spec_bytes() =~= seq![115u8, 116u8, 101u8, 112u8, 45u8, 101u8, 110u8, 100u8]);
    assert("step-start".spec_bytes() =~= seq![115u8, 116u8, 101u8, 112u8, 45u8, 115u8, 116u8, 97u8, 114u8, 116u8]);
    assert("none".spec_bytes() =~= seq![110u8, 111u8, 110u8, 101u8]);
    assert("initial".spec_bytes() =~= seq![105u8, 110u8, 105u8, 116u8, 105u8, 97u8, 108u8]);
    assert("inherit".spec_bytes() =~= seq![105u8, 110u8, 104u8, 101u8, 114u8, 105u8, 116u8]);
    assert("unset".spec_bytes() =~= seq![117u8, 110u8, 115u8, 101u8, 116u8]);
    assert("revert".spec_bytes() =~= seq![114u8, 101u8, 118u8, 101u8, 114u8, 116u8]);
    assert("revert-layer".spec_bytes() =~= seq![114u8, 101u8, 118u8, 101u8, 114u8, 116u8, 45u8, 108u8, 97u8, 121u8, 101u8, 114u8]);
}

/// `none` and the CSS-wide keywords are not keywords of the `animation` shorthand.
proof fn lemma_none_or_wide_not_animation_keyword(b: Seq<u8>)
    requires
        is_none_or_css_wide_keyword(b),
    ensures
        !is_animation_keyword(b),
{
    lemma_animation_words();
    assert(b.len() > 0);
}

/// Different keywords of the `animation` shorthand are recorded by bits that
/// do not overlap.
proof fn lemma_animation_bits_disjoint(a: Seq<u8>, b: Seq<u8>)
    requires
        is_animation_keyword(a),
        is_animation_keyword(b),
        a != b,
    ensures
        spec_animation_keyword_bit(a) & spec_animation_keyword_bit(b) == 0,
        spec_animation_keyword_bit(b) & spec_animation_keyword_bit(a) == 0,
{
    lemma_animation_words();
    assert(ANIMATION_NORMAL & ANIMATION_REVERSE == 0 && ANIMATION_NORMAL & ANIMATION_ALTERNATE == 0 && ANIMATION_NORMAL & ANIMATION_ALTERNATE_REVERSE == 0 && ANIMATION_NORMAL & ANIMATION_FORWARDS == 0 && ANIMATION_NORMAL & ANIMATION_BACKWARDS == 0 && ANIMATION_NORMAL & ANIMATION_BOTH == 0 && ANIMATION_NORMAL & ANIMATION_INFINITE == 0 && ANIMATION_NORMAL & ANIMATION_PAUSED == 0 && ANIMATION_NORMAL & ANIMATION_RUNNING == 0 && ANIMATION_NORMAL & ANIMATION_EASE == 0 && ANIMATION_NORMAL & ANIMATION_EASE_IN == 0 && ANIMATION_NORMAL & ANIMATION_EASE_OUT == 0 && ANIMATION_NORMAL & ANIMATION_EASE_IN_OUT == 0 && ANIMATION_NORMAL & ANIMATION_LINEAR == 0 && ANIMATION_NORMAL & ANIMATION_STEP_END == 0 && ANIMATION_NORMAL & ANIMATION_STEP_START == 0 && ANIMATION_REVERSE & ANIMATION_ALTERNATE == 0 && ANIMATION_REVERSE & ANIMATION_ALTERNATE_REVERSE == 0 && ANIMATION_REVERSE & ANIMATION_FORWARDS == 0 && ANIMATION_REVERSE & ANIMATION_BACKWARDS == 0 && ANIMATION_REVERSE & ANIMATION_BOTH == 0 && ANIMATION_REVERSE & ANIMATION_INFINITE == 0 && ANIMATION_REVERSE & ANIMATION_PAUSED == 0 && ANIMATION_REVERSE & ANIMATION_RUNNING == 0 && ANIMATION_REVERSE & ANIMATION_EASE == 0 && ANIMATION_REVERSE & ANIMATION_EASE_IN == 0 && ANIMATION_REVERSE & ANIMATION_EASE_OUT == 0 && ANIMATION_REVERSE & ANIMATION_EASE_IN_OUT == 0 && ANIMATION_REVERSE & ANIMATION_LINEAR == 0 && ANIMATION_REVERSE & ANIMATION_STEP_END == 0 && ANIMATION_REVERSE & ANIMATION_STEP_START == 0 && ANIMATION_ALTERNATE & ANIMATION_ALTERNATE_REVERSE == 0 && ANIMATION_ALTERNATE & ANIMATION_FORWARDS == 0 && ANIMATION_ALTERNATE & ANIMATION_BACKWARDS == 0 && ANIMATION_ALTERNATE & ANIMATION_BOTH == 0 && ANIMATION_ALTERNATE & ANIMATION_INFINITE == 0 && ANIMATION_ALTERNATE & ANIMATION_PAUSED == 0 && ANIMATION_ALTERNATE & ANIMATION_RUNNING == 0 && ANIMATION_ALTERNATE & ANIMATION_EASE == 0 && ANIMATION_ALTERNATE & ANIMATION_EASE_IN == 0 && ANIMATION_ALTERNATE & ANIMATION_EASE_OUT == 0 && ANIMATION_ALTERNATE & ANIMATION_EASE_IN_OUT == 0 && ANIMATION_ALTERNATE & ANIMATION_LINEAR == 0 && ANIMATION_ALTERNATE & ANIMATION_STEP_END == 0 && ANIMATION_ALTERNATE & ANIMATION_STEP_START == 0 && ANIMATION_ALTERNATE_REVERSE & ANIMATION_FORWARDS == 0 && ANIMATION_ALTERNATE_REVERSE & ANIMATION_BACKWARDS == 0 && ANIMATION_ALTERNATE_REVERSE & ANIMATION_BOTH == 0 && ANIMATION_ALTERNATE_REVERSE & ANIMATION_INFINITE == 0 && ANIMATION_ALTERNATE_REVERSE & ANIMATION_PAUSED == 0 && ANIMATION_ALTERNATE_REVERSE & ANIMATION_RUNNING == 0 && ANIMATION_ALTERNATE_REVERSE & ANIMATION_EASE == 0 && ANIMATION_ALTERNATE_REVERSE & ANIMATION_EASE_IN == 0 && ANIMATION_ALTERNATE_REVERSE & ANIMATION_EASE_OUT == 0 && ANIMATION_ALTERNATE_REVERSE & ANIMATION_EASE_IN_OUT == 0 && ANIMATION_ALTERNATE_REVERSE & ANIMATION_LINEAR == 0 && ANIMATION_ALTERNATE_REVERSE & ANIMATION_STEP_END == 0 && ANIMATION_ALTERNATE_REVERSE & ANIMATION_STEP_START == 0 && ANIMATION_FORWARDS & ANIMATION_BACKWARDS == 0 && ANIMATION_FORWARDS & ANIMATION_BOTH == 0 && ANIMATION_FORWARDS & ANIMATION_INFINITE == 0 && ANIMATION_FORWARDS & ANIMATION_PAUSED == 0 && ANIMATION_FORWARDS & ANIMATION_RUNNING == 0 && ANIMATION_FORWARDS & ANIMATION_EASE == 0 && ANIMATION_FORWARDS & ANIMATION_EASE_IN == 0 && ANIMATION_FORWARDS & ANIMATION_EASE_OUT == 0 && ANIMATION_FORWARDS & ANIMATION_EASE_IN_OUT == 0 && ANIMATION_FORWARDS & ANIMATION_LINEAR == 0 && ANIMATION_FORWARDS & ANIMATION_STEP_END == 0 && ANIMATION_FORWARDS & ANIMATION_STEP_START == 0 && ANIMATION_BACKWARDS & ANIMATION_BOTH == 0 && ANIMATION_BACKWARDS & ANIMATION_INFINITE == 0 && ANIMATION_BACKWARDS & ANIMATION_PAUSED == 0 && ANIMATION_BACKWARDS & ANIMATION_RUNNING == 0 && ANIMATION_BACKWARDS & ANIMATION_EASE == 0 && ANIMATION_BACKWARDS & ANIMATION_EASE_IN == 0 && ANIMATION_BACKWARDS & ANIMATION_EASE_OUT == 0 && ANIMATION_BACKWARDS & ANIMATION_EASE_IN_OUT == 0 && ANIMATION_BACKWARDS & ANIMATION_LINEAR == 0 && ANIMATION_BACKWARDS & ANIMATION_STEP_END == 0 && ANIMATION_BACKWARDS & ANIMATION_STEP_START == 0 && ANIMATION_BOTH & ANIMATION_INFINITE == 0 && ANIMATION_BOTH & ANIMATION_PAUSED == 0 && ANIMATION_BOTH & ANIMATION_RUNNING == 0 && ANIMATION_BOTH & ANIMATION_EASE == 0 && ANIMATION_BOTH & ANIMATION_EASE_IN == 0 && ANIMATION_BOTH & ANIMATION_EASE_OUT == 0 && ANIMATION_BOTH & ANIMATION_EASE_IN_OUT == 0 && ANIMATION_BOTH & ANIMATION_LINEAR == 0 && ANIMATION_BOTH & ANIMATION_STEP_END == 0 && ANIMATION_BOTH & ANIMATION_STEP_START == 0 && ANIMATION_INFINITE & ANIMATION_PAUSED == 0 && ANIMATION_INFINITE & ANIMATION_RUNNING == 0 && ANIMATION_INFINITE & ANIMATION_EASE == 0 && ANIMATION_INFINITE & ANIMATION_EASE_IN == 0 && ANIMATION_INFINITE & ANIMATION_EASE_OUT == 0 && ANIMATION_INFINITE & ANIMATION_EASE_IN_OUT == 0 && ANIMATION_INFINITE & ANIMATION_LINEAR == 0 && ANIMATION_INFINITE & ANIMATION_STEP_END == 0 && ANIMATION_INFINITE & ANIMATION_STEP_START == 0 && ANIMATION_PAUSED & ANIMATION_RUNNING == 0 && ANIMATION_PAUSED & ANIMATION_EASE == 0 && ANIMATION_PAUSED & ANIMATION_EASE_IN == 0 && ANIMATION_PAUSED & ANIMATION_EASE_OUT == 0 && ANIMATION_PAUSED & ANIMATION_EASE_IN_OUT == 0 && ANIMATION_PAUSED & ANIMATION_LINEAR == 0 && ANIMATION_PAUSED & ANIMATION_STEP_END == 0 && ANIMATION_PAUSED & ANIMATION_STEP_START == 0 && ANIMATION_RUNNING & ANIMATION_EASE == 0 && ANIMATION_RUNNING & ANIMATION_EASE_IN == 0 && ANIMATION_RUNNING & ANIMATION_EASE_OUT == 0 && ANIMATION_RUNNING & ANIMATION_EASE_IN_OUT == 0 && ANIMATION_RUNNING & ANIMATION_LINEAR == 0 && ANIMATION_RUNNING & ANIMATION_STEP_END == 0 && ANIMATION_RUNNING & ANIMATION_STEP_START == 0 && ANIMATION_EASE & ANIMATION_EASE_IN == 0 && ANIMATION_EASE & ANIMATION_EASE_OUT == 0 && ANIMATION_EASE & ANIMATION_EASE_IN_OUT == 0 && ANIMATION_EASE & ANIMATION_LINEAR == 0 && ANIMATION_EASE & ANIMATION_STEP_END == 0 && ANIMATION_EASE & ANIMATION_STEP_START == 0 && ANIMATION_EASE_IN & ANIMATION_EASE_OUT == 0 && ANIMATION_EASE_IN & ANIMATION_EASE_IN_OUT == 0 && ANIMATION_EASE_IN & ANIMATION_LINEAR == 0 && ANIMATION_EASE_IN & ANIMATION_STEP_END == 0 && ANIMATION_EASE_IN & ANIMATION_STEP_START == 0 && ANIMATION_EASE_OUT & ANIMATION_EASE_IN_OUT == 0 && ANIMATION_EASE_OUT & ANIMATION_LINEAR == 0 && ANIMATION_EASE_OUT & ANIMATION_STEP_END == 0 && ANIMATION_EASE_OUT & ANIMATION_STEP_START == 0 && ANIMATION_EASE_IN_OUT & ANIMATION_LINEAR == 0 && ANIMATION_EASE_IN_OUT & ANIMATION_STEP_END == 0 && ANIMATION_EASE_IN_OUT & ANIMATION_STEP_START == 0 && ANIMATION_LINEAR & ANIMATION_STEP_END == 0 && ANIMATION_LINEAR & ANIMATION_STEP_START == 0 && ANIMATION_STEP_END & ANIMATION_STEP_START == 0) by (bit_vector);
    assert(ANIMATION_REVERSE & ANIMATION_NORMAL == 0 && ANIMATION_ALTERNATE & ANIMATION_NORMAL == 0 && ANIMATION_ALTERNATE_REVERSE & ANIMATION_NORMAL == 0 && ANIMATION_FORWARDS & ANIMATION_NORMAL == 0 && ANIMATION_BACKWARDS & ANIMATION_NORMAL == 0 && ANIMATION_BOTH & ANIMATION_NORMAL == 0 && ANIMATION_INFINITE & ANIMATION_NORMAL == 0 && ANIMATION_PAUSED & ANIMATION_NORMAL == 0 && ANIMATION_RUNNING & ANIMATION_NORMAL == 0 && ANIMATION_EASE & ANIMATION_NORMAL == 0 && ANIMATION_EASE_IN & ANIMATION_NORMAL == 0 && ANIMATION_EASE_OUT & ANIMATION_NORMAL == 0 && ANIMATION_EASE_IN_OUT & ANIMATION_NORMAL == 0 && ANIMATION_LINEAR & ANIMATION_NORMAL == 0 && ANIMATION_STEP_END & ANIMATION_NORMAL == 0 && ANIMATION_STEP_START & ANIMATION_NORMAL == 0 && ANIMATION_ALTERNATE & ANIMATION_REVERSE == 0 && ANIMATION_ALTERNATE_REVERSE & ANIMATION_REVERSE == 0 && ANIMATION_FORWARDS & ANIMATION_REVERSE == 0 && ANIMATION_BACKWARDS & ANIMATION_REVERSE == 0 && ANIMATION_BOTH & ANIMATION_REVERSE == 0 && ANIMATION_INFINITE & ANIMATION_REVERSE == 0 && ANIMATION_PAUSED & ANIMATION_REVERSE == 0 && ANIMATION_RUNNING & ANIMATION_REVERSE == 0 && ANIMATION_EASE & ANIMATION_REVERSE == 0 && ANIMATION_EASE_IN & ANIMATION_REVERSE == 0 && ANIMATION_EASE_OUT & ANIMATION_REVERSE == 0 && ANIMATION_EASE_IN_OUT & ANIMATION_REVERSE == 0 && ANIMATION_LINEAR & ANIMATION_REVERSE == 0 && ANIMATION_STEP_END & ANIMATION_REVERSE == 0 && ANIMATION_STEP_START & ANIMATION_REVERSE == 0 && ANIMATION_ALTERNATE_REVERSE & ANIMATION_ALTERNATE == 0 && ANIMATION_FORWARDS & ANIMATION_ALTERNATE == 0 && ANIMATION_BACKWARDS & ANIMATION_ALTERNATE == 0 && ANIMATION_BOTH & ANIMATION_ALTERNATE == 0 && ANIMATION_INFINITE & ANIMATION_ALTERNATE == 0 && ANIMATION_PAUSED & ANIMATION_ALTERNATE == 0 && ANIMATION_RUNNING & ANIMATION_ALTERNATE == 0 && ANIMATION_EASE & ANIMATION_ALTERNATE == 0 && ANIMATION_EASE_IN & ANIMATION_ALTERNATE == 0 && ANIMATION_EASE_OUT & ANIMATION_ALTERNATE == 0 && ANIMATION_EASE_IN_OUT & ANIMATION_ALTERNATE == 0 && ANIMATION_LINEAR & ANIMATION_ALTERNATE == 0 && ANIMATION_STEP_END & ANIMATION_ALTERNATE == 0 && ANIMATION_STEP_START & ANIMATION_ALTERNATE == 0 && ANIMATION_FORWARDS & ANIMATION_ALTERNATE_REVERSE == 0 && ANIMATION_BACKWARDS & ANIMATION_ALTERNATE_REVERSE == 0 && ANIMATION_BOTH & ANIMATION_ALTERNATE_REVERSE == 0 && ANIMATION_INFINITE & ANIMATION_ALTERNATE_REVERSE == 0 && ANIMATION_PAUSED & ANIMATION_ALTERNATE_REVERSE == 0 && ANIMATION_RUNNING & ANIMATION_ALTERNATE_REVERSE == 0 && ANIMATION_EASE & ANIMATION_ALTERNATE_REVERSE == 0 && ANIMATION_EASE_IN & ANIMATION_ALTERNATE_REVERSE == 0 && ANIMATION_EASE_OUT & ANIMATION_ALTERNATE_REVERSE == 0 && ANIMATION_EASE_IN_OUT & ANIMATION_ALTERNATE_REVERSE == 0 && ANIMATION_LINEAR & ANIMATION_ALTERNATE_REVERSE == 0 && ANIMATION_STEP_END & ANIMATION_ALTERNATE_REVERSE == 0 && ANIMATION_STEP_START & ANIMATION_ALTERNATE_REVERSE == 0 && ANIMATION_BACKWARDS & ANIMATION_FORWARDS == 0 && ANIMATION_BOTH & ANIMATION_FORWARDS == 0 && ANIMATION_INFINITE & ANIMATION_FORWARDS == 0 && ANIMATION_PAUSED & ANIMATION_FORWARDS == 0 && ANIMATION_RUNNING & ANIMATION_FORWARDS == 0 && ANIMATION_EASE & ANIMATION_FORWARDS == 0 && ANIMATION_EASE_IN & ANIMATION_FORWARDS == 0 && ANIMATION_EASE_OUT & ANIMATION_FORWARDS == 0 && ANIMATION_EASE_IN_OUT & ANIMATION_FORWARDS == 0 && ANIMATION_LINEAR & ANIMATION_FORWARDS == 0 && ANIMATION_STEP_END & ANIMATION_FORWARDS == 0 && ANIMATION_STEP_START & ANIMATION_FORWARDS == 0 && ANIMATION_BOTH & ANIMATION_BACKWARDS == 0 && ANIMATION_INFINITE & ANIMATION_BACKWARDS == 0 && ANIMATION_PAUSED & ANIMATION_BACKWARDS == 0 && ANIMATION_RUNNING & ANIMATION_BACKWARDS == 0 && ANIMATION_EASE & ANIMATION_BACKWARDS == 0 && ANIMATION_EASE_IN & ANIMATION_BACKWARDS == 0 && ANIMATION_EASE_OUT & ANIMATION_BACKWARDS == 0 && ANIMATION_EASE_IN_OUT & ANIMATION_BACKWARDS == 0 && ANIMATION_LINEAR & ANIMATION_BACKWARDS == 0 && ANIMATION_STEP_END & ANIMATION_BACKWARDS == 0 && ANIMATION_STEP_START & ANIMATION_BACKWARDS == 0 && ANIMATION_INFINITE & ANIMATION_BOTH == 0 && ANIMATION_PAUSED & ANIMATION_BOTH == 0 && ANIMATION_RUNNING & ANIMATION_BOTH == 0 && ANIMATION_EASE & ANIMATION_BOTH == 0 && ANIMATION_EASE_IN & ANIMATION_BOTH == 0 && ANIMATION_EASE_OUT & ANIMATION_BOTH == 0 && ANIMATION_EASE_IN_OUT & ANIMATION_BOTH == 0 && ANIMATION_LINEAR & ANIMATION_BOTH == 0 && ANIMATION_STEP_END & ANIMATION_BOTH == 0 && ANIMATION_STEP_START & ANIMATION_BOTH == 0 && ANIMATION_PAUSED & ANIMATION_INFINITE == 0 && ANIMATION_RUNNING & ANIMATION_INFINITE == 0 && ANIMATION_EASE & ANIMATION_INFINITE == 0 && ANIMATION_EASE_IN & ANIMATION_INFINITE == 0 && ANIMATION_EASE_OUT & ANIMATION_INFINITE == 0 && ANIMATION_EASE_IN_OUT & ANIMATION_INFINITE == 0 && ANIMATION_LINEAR & ANIMATION_INFINITE == 0 && ANIMATION_STEP_END & ANIMATION_INFINITE == 0 && ANIMATION_STEP_START & ANIMATION_INFINITE == 0 && ANIMATION_RUNNING & ANIMATION_PAUSED == 0 && ANIMATION_EASE & ANIMATION_PAUSED == 0 && ANIMATION_EASE_IN & ANIMATION_PAUSED == 0 && ANIMATION_EASE_OUT & ANIMATION_PAUSED == 0 && ANIMATION_EASE_IN_OUT & ANIMATION_PAUSED == 0 && ANIMATION_LINEAR & ANIMATION_PAUSED == 0 && ANIMATION_STEP_END & ANIMATION_PAUSED == 0 && ANIMATION_STEP_START & ANIMATION_PAUSED == 0 && ANIMATION_EASE & ANIMATION_RUNNING == 0 && ANIMATION_EASE_IN & ANIMATION_RUNNING == 0 && ANIMATION_EASE_OUT & ANIMATION_RUNNING == 0 && ANIMATION_EASE_IN_OUT & ANIMATION_RUNNING == 0 && ANIMATION_LINEAR & ANIMATION_RUNNING == 0 && ANIMATION_STEP_END & ANIMATION_RUNNING == 0 && ANIMATION_STEP_START & ANIMATION_RUNNING == 0 && ANIMATION_EASE_IN & ANIMATION_EASE == 0 && ANIMATION_EASE_OUT & ANIMATION_EASE == 0 && ANIMATION_EASE_IN_OUT & ANIMATION_EASE == 0 && ANIMATION_LINEAR & ANIMATION_EASE == 0 && ANIMATION_STEP_END & ANIMATION_EASE == 0 && ANIMATION_STEP_START & ANIMATION_EASE == 0 && ANIMATION_EASE_OUT & ANIMATION_EASE_IN == 0 && ANIMATION_EASE_IN_OUT & ANIMATION_EASE_IN == 0 && ANIMATION_LINEAR & ANIMATION_EASE_IN == 0 && ANIMATION_STEP_END & ANIMATION_EASE_IN == 0 && ANIMATION_STEP_START & ANIMATION_EASE_IN == 0 && ANIMATION_EASE_IN_OUT & ANIMATION_EASE_OUT == 0 && ANIMATION_LINEAR & ANIMATION_EASE_OUT == 0 && ANIMATION_STEP_END & ANIMATION_EASE_OUT == 0 && ANIMATION_STEP_START & ANIMATION_EASE_OUT == 0 && ANIMATION_LINEAR & ANIMATION_EASE_IN_OUT == 0 && ANIMATION_STEP_END & ANIMATION_EASE_IN_OUT == 0 && ANIMATION_STEP_START & ANIMATION_EASE_IN_OUT == 0 && ANIMATION_STEP_END & ANIMATION_LINEAR == 0 && ANIMATION_STEP_START & ANIMATION_LINEAR == 0 && ANIMATION_STEP_START & ANIMATION_STEP_END == 0) by (bit_vector);
}

/// In an `animation` value, a keyword of the shorthand is not a keyframes
/// name the first time it comes, also after another keyword, and is one when
/// it comes again; `none` and the CSS-wide keywords are never names; any
/// other word is a name and leaves what was seen unchanged.
pub proof fn lemma_animation_keywords_reserved(seen: AnimationReserved, ident: Seq<u8>, other: Seq<u8>)
    ensures
        is_animation_keyword(ident) && is_animation_keyword(other) && ident != other ==> !(AnimationReserved { bits: 0 }).after_check(other).spec_check(ident),
        is_animation_keyword(ident) ==> !(AnimationReserved { bits: 0 }).spec_check(ident),
        is_animation_keyword(ident) ==> seen.after_check(ident).spec_check(ident),
        is_none_or_css_wide_keyword(ident) ==> !seen.spec_check(ident),
        !is_animation_keyword(ident) && !is_none_or_css_wide_keyword(ident) ==> seen.spec_check(ident)
            && seen.after_check(ident) == seen,
{
    lemma_animation_bits_nonzero();
    let bit = spec_animation_keyword_bit(ident);
    if is_animation_keyword(ident) && is_animation_keyword(other) && ident != other {
        let o = spec_animation_keyword_bit(other);
        lemma_animation_bits_disjoint(ident, other);
        assert(o != 0 && bit != 0);
        assert(0u32 & o != o && (0u32 | o) & bit != bit) by (bit_vector)
            requires
                o != 0,
                bit != 0,
                o & bit == 0,
        ;
    }
    if is_animation_keyword(ident) {
        assert(bit != 0);
        lemma_bit_first_and_again(seen.bits, bit);
        if seen.bits & bit == bit {
            assert(seen.after_check(ident) == seen);
        }
    } else {
        assert(bit == 0);
    }
    if is_none_or_css_wide_keyword(ident) {
        lemma_none_or_wide_not_animation_keyword(ident);
    }
}

/// The reserved words of `animation`: each keyword is reserved the first time it is seen.
#[derive(Debug, Default, Clone, Copy)]
pub struct AnimationReserved {
    pub bits: u32,
}

impl AnimationReserved {
    pub fn new() -> (r: AnimationReserved)
        ensures
            r.bits == 0,
    {
        AnimationReserved { bits: 0 }
    }

    fn check_and_update(&mut self, bit: u32) -> (r: bool)
        ensures
            r == (old(self).bits & bit == bit),
            r ==> final(self).bits == old(self).bits,
            !r ==> final(self).bits == old(self).bits | bit,
    {
        if self.bits & bit == bit {
            return true;
        }
        self.bits = self.bits | bit;
        false
    }
}

impl ReservedValues for AnimationReserved {
    open spec fn spec_check(&self, ident: Seq<u8>) -> bool {
        let bit = spec_animation_keyword_bit(ident);
        if bit != 0 {
            self.bits & bit == bit
        } else {
            !spec_is_animation_none_or_wide(ident)
        }
    }

    open spec fn after_check(&self, ident: Seq<u8>) -> AnimationReserved {
        let bit = spec_animation_keyword_bit(ident);
        if bit != 0 && self.bits & bit != bit {
            AnimationReserved { bits: self.bits | bit }
        } else {
            *self
        }
    }

    open spec fn after_reset(&self) -> AnimationReserved {
        AnimationReserved { bits: 0 }
    }

    fn check(&mut self, ident: &str) -> (r: bool) {
        let bit = animation_keyword_bit(ident);
        if bit != 0 {
            self.check_and_update(bit)
        } else if is_animation_none_or_wide(ident) {
            false
        } else {
            true
        }
    }

    fn reset(&mut self) {
        self.bits = 0;
    }
}

/// The counter styles predefined by CSS, `none` and the CSS-wide keywords.
pub open spec fn spec_is_list_style_keyword(b: Seq<u8>) -> bool {
    ||| b == "decimal".spec_bytes()
    ||| b == "decimal-leading-zero".spec_bytes()
    ||| b == "arabic-indic".spec_bytes()
    ||| b == "armenian".spec_bytes()
    ||| b == "upper-armenian".spec_bytes()
    ||| b == "lower-armenian".spec_bytes()
    ||| b == "bengali".spec_bytes()
    ||| b == "cambodian".spec_bytes()
    ||| b == "khmer".spec_bytes()
    ||| b == "cjk-decimal".spec_bytes()
    ||| b == "devanagari".spec_bytes()
    ||| b == "georgian".spec_bytes()
    ||| b == "gujarati".spec_bytes()
    ||| b == "gurmukhi".spec_bytes()
    ||| b == "hebrew".spec_bytes()
    ||| b == "kannada".spec_bytes()
    ||| b == "lao".spec_bytes()
    ||| b == "malayalam".spec_bytes()
    ||| b == "mongolian".spec_bytes()
    ||| b == "myanmar".spec_bytes()
    ||| b == "oriya".spec_bytes()
    ||| b == "persian".spec_bytes()
    ||| b == "lower-roman".spec_bytes()
    ||| b == "upper-roman".spec_bytes()
    ||| b == "tamil".spec_bytes()
    ||| b == "telugu".spec_bytes()
    ||| b == "thai".spec_bytes()
    ||| b == "tibetan".spec_bytes()
    ||| b == "lower-alpha".spec_bytes()
    ||| b == "lower-latin".spec_bytes()
    ||| b == "upper-alpha".spec_bytes()
    ||| b == "upper-latin".spec_bytes()
    ||| b == "lower-greek".spec_bytes()
    ||| b == "hiragana".spec_bytes()
    ||| b == "hiragana-iroha".spec_bytes()
    ||| b == "katakana".spec_bytes()
    ||| b == "katakana-iroha".spec_bytes()
    ||| b == "disc".spec_bytes()
    ||| b == "circle".spec_bytes()
    ||| b == "square".spec_bytes()
    ||| b == "disclosure-open".spec_bytes()
    ||| b == "disclosure-closed".spec_bytes()
    ||| b == "cjk-earthly-branch".spec_bytes()
    ||| b == "cjk-heavenly-stem".spec_bytes()
    ||| b == "japanese-informal".spec_bytes()
    ||| b == "japanese-formal".spec_bytes()
    ||| b == "korean-hangul-formal".spec_bytes()
    ||| b == "korean-hanja-informal".spec_bytes()
    ||| b == "korean-hanja-formal".spec_bytes()
    ||| b == "simp-chinese-informal".spec_bytes()
    ||| b == "simp-chinese-formal".spec_bytes()
    ||| b == "trad-chinese-informal".spec_bytes()
    ||| b == "trad-chinese-formal".spec_bytes()
    ||| b == "ethiopic-numeric".spec_bytes()
    ||| b == "none".spec_bytes()
    ||| b == "initial".spec_bytes()
    ||| b == "inherit".spec_bytes()
    ||| b == "unset".spec_bytes()
    ||| b == "revert".spec_bytes()
    ||| b == "revert-layer".spec_bytes()
}

fn is_list_style_keyword(ident: &str) -> (r: bool)
    ensures
        r == spec_is_list_style_keyword(ident.spec_bytes()),
{
    str_eq(ident, "decimal")
        || str_eq(ident, "decimal-leading-zero")
        || str_eq(ident, "arabic-indic")
        || str_eq(ident, "armenian")
        || str_eq(ident, "upper-armenian")
        || str_eq(ident, "lower-armenian")
        || str_eq(ident, "bengali")
        || str_eq(ident, "cambodian")
        || str_eq(ident, "khmer")
        || str_eq(ident, "cjk-decimal")
        || str_eq(ident, "devanagari")
        || str_eq(ident, "georgian")
        || str_eq(ident, "gujarati")
        || str_eq(ident, "gurmukhi")
        || str_eq(ident, "hebrew")
        || str_eq(ident, "kannada")
        || str_eq(ident, "lao")
        || str_eq(ident, "malayalam")
        || str_eq(ident, "mongolian")
        || str_eq(ident, "myanmar")
        || str_eq(ident, "oriya")
        || str_eq(ident, "persian")
        || str_eq(ident, "lower-roman")
        || str_eq(ident, "upper-roman")
        || str_eq(ident, "tamil")
        || str_eq(ident, "telugu")
        || str_eq(ident, "thai")
        || str_eq(ident, "tibetan")
        || str_eq(ident, "lower-alpha")
        || str_eq(ident, "lower-latin")
        || str_eq(ident, "upper-alpha")
        || str_eq(ident, "upper-latin")
        || str_eq(ident, "lower-greek")
        || str_eq(ident, "hiragana")
        || str_eq(ident, "hiragana-iroha")
        || str_eq(ident, "katakana")
        || str_eq(ident, "katakana-iroha")
        || str_eq(ident, "disc")
        || str_eq(ident, "circle")
        || str_eq(ident, "square")
        || str_eq(ident, "disclosure-open")
        || str_eq(ident, "disclosure-closed")
        || str_eq(ident, "cjk-earthly-branch")
        || str_eq(ident, "cjk-heavenly-stem")
        || str_eq(ident, "japanese-informal")
        || str_eq(ident, "japanese-formal")
        || str_eq(ident, "korean-hangul-formal")
        || str_eq(ident, "korean-hanja-informal")
        || str_eq(ident, "korean-hanja-formal")
        || str_eq(ident, "simp-chinese-informal")
        || str_eq(ident, "simp-chinese-formal")
        || str_eq(ident, "trad-chinese-informal")
        || str_eq(ident, "trad-chinese-formal")
        || str_eq(ident, "ethiopic-numeric")
        || str_eq(ident, "none")
        || str_eq(ident, "initial")
        || str_eq(ident, "inherit")
        || str_eq(ident, "unset")
        || str_eq(ident, "revert")
        || str_eq(ident, "revert-layer")
}

/// The counter styles that CSS predefines.
pub open spec fn is_predefined_counter_style(b: Seq<u8>) -> bool {
    ||| "decimal".spec_bytes() == b
    ||| "decimal-leading-zero".spec_bytes() == b
    ||| "arabic-indic".spec_bytes() == b
    ||| "armenian".spec_bytes() == b
    ||| "upper-armenian".spec_bytes() == b
    ||| "lower-armenian".spec_bytes() == b
    ||| "bengali".spec_bytes() == b
    ||| "cambodian".spec_bytes() == b
    ||| "khmer".spec_bytes() == b
    ||| "cjk-decimal".spec_bytes() == b
    ||| "devanagari".spec_bytes() == b
    ||| "georgian".spec_bytes() == b
    ||| "gujarati".spec_bytes() == b
    ||| "gurmukhi".spec_bytes() == b
    ||| "hebrew".spec_bytes() == b
    ||| "kannada".spec_bytes() == b
    ||| "lao".spec_bytes() == b
    ||| "malayalam".spec_bytes() == b
    ||| "mongolian".spec_bytes() == b
    ||| "myanmar".spec_bytes() == b
    ||| "oriya".spec_bytes() == b
    ||| "persian".spec_bytes() == b
    ||| "lower-roman".spec_bytes() == b
    ||| "upper-roman".spec_bytes() == b
    ||| "tamil".spec_bytes() == b
    ||| "telugu".spec_bytes() == b
    ||| "thai".spec_bytes() == b
    ||| "tibetan".spec_bytes() == b
    ||| "lower-alpha".spec_bytes() == b
    ||| "lower-latin".spec_bytes() == b
    ||| "upper-alpha".spec_bytes() == b
    ||| "upper-latin".spec_bytes() == b
    ||| "lower-greek".spec_bytes() == b
    ||| "hiragana".spec_bytes() == b
    ||| "hiragana-iroha".spec_bytes() == b
    ||| "katakana".spec_bytes() == b
    ||| "katakana-iroha".spec_bytes() == b
    ||| "disc".spec_bytes() == b
    ||| "circle".spec_bytes() == b
    ||| "square".spec_bytes() == b
    ||| "disclosure-open".spec_bytes() == b
    ||| "disclosure-closed".spec_bytes() == b
    ||| "cjk-earthly-branch".spec_bytes() == b
    ||| "cjk-heavenly-stem".spec_bytes() == b
    ||| "japanese-informal".spec_bytes() == b
    ||| "japanese-formal".spec_bytes() == b
    ||| "korean-hangul-formal".spec_bytes() == b
    ||| "korean-hanja-informal".spec_bytes() == b
    ||| "korean-hanja-formal".spec_bytes() == b
    ||| "simp-chinese-informal".spec_bytes() == b
    ||| "simp-chinese-formal".spec_bytes() == b
    ||| "trad-chinese-informal".spec_bytes() == b
    ||| "trad-chinese-formal".spec_bytes() == b
    ||| "ethiopic-numeric".spec_bytes() == b
}

/// In a `list-style` value, a word names a local counter style exactly when
/// it is neither a counter style that CSS predefines, nor `none`, nor a
/// CSS-wide keyword; checking a word changes nothing.
pub proof fn lemma_list_style_keywords_reserved(seen: ListStyleReserved, ident: Seq<u8>)
    ensures
        seen.spec_check(ident) <==> !is_predefined_counter_style(ident) && !is_none_or_css_wide_keyword(
            ident,
        ),
        seen.after_check(ident) == seen,
{
}

/// The reserved words of `list-style`: the predefined counter styles.
#[derive(Debug, Default, Clone, Copy)]
pub struct ListStyleReserved;

impl ReservedValues for ListStyleReserved {
    open spec fn spec_check(&self, ident: Seq<u8>) -> bool {
        !spec_is_list_style_keyword(ident)
    }

    open spec fn after_check(&self, ident: Seq<u8>) -> ListStyleReserved {
        *self
    }

    open spec fn after_reset(&self) -> ListStyleReserved {
        *self
    }

    fn check(&mut self, ident: &str) -> (r: bool) {
        !is_list_style_keyword(ident)
    }

    fn reset(&mut self) {
    }
}

/// The reserved words of `font-palette`: all but dashed identifiers.
#[derive(Debug, Default, Clone, Copy)]
pub struct FontPaletteReserved;

impl ReservedValues for FontPaletteReserved {
    open spec fn spec_check(&self, ident: Seq<u8>) -> bool {
        bytes_starts_with(ident, "--".spec_bytes())
    }

    open spec fn after_check(&self, ident: Seq<u8>) -> FontPaletteReserved {
        *self
    }

    open spec fn after_reset(&self) -> FontPaletteReserved {
        *self
    }

    fn check(&mut self, ident: &str) -> (r: bool) {
        str_starts_with(ident, "--")
    }

    fn reset(&mut self) {
    }
}


/// A dependency of a CSS module, with the range of the text it comes from.
#[derive(Debug, Clone, Hash, PartialEq, Eq)]
pub enum Dependency<'s> {
    Url { request: &'s str, range: Range, kind: UrlRangeKind },
    Import {
        request: &'s str,
        range: Range,
        layer: Option<&'s str>,
        supports: Option<&'s str>,
        media: Option<&'s str>,
    },
    Replace { content: &'s str, range: Range },
    LocalClass { name: &'s str, range: Range, explicit: bool },
    LocalId { name: &'s str, range: Range, explicit: bool },
    LocalVar { name: &'s str, range: Range, from: Option<&'s str> },
    LocalVarDecl { name: &'s str, range: Range },
    LocalPropertyDecl { name: &'s str, range: Range },
    LocalKeyframes { name: &'s str, range: Range },
    LocalKeyframesDecl { name: &'s str, range: Range },
    LocalCounterStyle { name: &'s str, range: Range },
    LocalCounterStyleDecl { name: &'s str, range: Range },
    LocalFontPalette { name: &'s str, range: Range },
    LocalFontPaletteDecl { name: &'s str, range: Range },
    Composes {
        local_classes: NameList<'s>,
        names: NameList<'s>,
        from: Option<&'s str>,
        range: Range,
    },
    ICSSImportFrom { path: &'s str },
    ICSSImportValue { prop: &'s str, value: &'s str },
    ICSSExportValue { prop: &'s str, value: &'s str },
}

/// Whether a url came from a `url(...)`/`image-set(...)` function or from a string.
#[derive(Debug, Clone, Copy, Hash, PartialEq, Eq, Structural)]
pub enum UrlRangeKind {
    Function,
    String,
}

/// A problem found in the text; lexing goes on after it.
#[derive(Debug, Clone, Hash, PartialEq, Eq)]
pub struct Warning<'s> {
    pub range: Range,
    pub kind: WarningKind<'s>,
}

#[derive(Debug, Clone, Hash, PartialEq, Eq)]
pub enum WarningKind<'s> {
    Unexpected { message: &'s str },
    DuplicateUrl { when: &'s str },
    NamespaceNotSupportedInBundledCss,
    NotPrecededAtImport,
    ExpectedUrl { when: &'s str },
    ExpectedUrlBefore { when: &'s str },
    ExpectedLayerBefore { when: &'s str },
    InconsistentModeResult,
    ExpectedNotInside { pseudo: &'s str },
    MissingWhitespace { surrounding: &'s str },
    NotPure { message: &'s str },
    UnexpectedComposition { message: &'s str },
}

impl<'s> Warning<'s> {
    pub fn new(range: Range, kind: WarningKind<'s>) -> (r: Warning<'s>)
        ensures
            r.range == range,
            r.kind == kind,
    {
        Warning { range, kind }
    }

    pub fn range(&self) -> (r: &Range)
        ensures
            *r == self.range,
    {
        &self.range
    }

    pub fn kind(&self) -> (r: &WarningKind<'s>)
        ensures
            *r == self.kind,
    {
        &self.kind
    }

    /// The message that explains the warning to a reader.
    pub fn message(&self) -> (r: String)
        ensures
            r@ == warning_message(self.kind),
    {
        match self.kind {
            WarningKind::Unexpected { message } => String::from_str(message),
            WarningKind::DuplicateUrl { when } => {
                let mut r = String::from_str("Duplicate of 'url(...)' in '");
                r.append(when);
                r.append("'");
                r
            },
            WarningKind::NamespaceNotSupportedInBundledCss => String::from_str(
                "'@namespace' is not supported in bundled CSS",
            ),
            WarningKind::NotPrecededAtImport => String::from_str(
                "Any '@import' rules must precede all other rules",
            ),
            WarningKind::ExpectedUrl { when } => {
                let mut r = String::from_str("Expected URL in '");
                r.append(when);
                r.append("'");
                r
            },
            WarningKind::ExpectedUrlBefore { when } => {
                let mut r = String::from_str("An URL in '");
                r.append(when);
                r.append("' should be before 'layer(...)' or 'supports(...)'");
                r
            },
            WarningKind::ExpectedLayerBefore { when } => {
                let mut r = String::from_str("The 'layer(...)' in '");
                r.append(when);
                r.append("' should be before 'supports(...)'");
                r
            },
            WarningKind::InconsistentModeResult => String::from_str(
                "Inconsistent rule global/local (multiple selectors must result in the same mode for the rule)",
            ),
            WarningKind::ExpectedNotInside { pseudo } => {
                let mut r = String::from_str("A '");
                r.append(pseudo);
                r.append("' is not allowed inside of a ':local()' or ':global()'");
                r
            },
            WarningKind::MissingWhitespace { surrounding } => {
                let mut r = String::from_str("Missing ");
                r.append(surrounding);
                r.append(" whitespace");
                r
            },
            WarningKind::NotPure { message } => {
                let mut r = String::from_str("Pure globals is not allowed in pure mode, ");
                r.append(message);
                r
            },
            WarningKind::UnexpectedComposition { message } => {
                let mut r = String::from_str("Composition is ");
                r.append(message);
                r
            },
        }
    }
}

/// The message of a warning of kind `kind`.
pub open spec fn warning_message(kind: WarningKind) -> Seq<char> {
    match kind {
        WarningKind::Unexpected { message } => message@,
        WarningKind::DuplicateUrl { when } => "Duplicate of 'url(...)' in '"@ + when@ + "'"@,
        WarningKind::NamespaceNotSupportedInBundledCss => "'@namespace' is not supported in bundled CSS"@,
        WarningKind::NotPrecededAtImport => "Any '@import' rules must precede all other rules"@,
        WarningKind::ExpectedUrl { when } => "Expected URL in '"@ + when@ + "'"@,
        WarningKind::ExpectedUrlBefore { when } => "An URL in '"@ + when@
            + "' should be before 'layer(...)' or 'supports(...)'"@,
        WarningKind::ExpectedLayerBefore { when } => "The 'layer(...)' in '"@ + when@
            + "' should be before 'supports(...)'"@,
        WarningKind::InconsistentModeResult =>
            "Inconsistent rule global/local (multiple selectors must result in the same mode for the rule)"@,
        WarningKind::ExpectedNotInside { pseudo } => "A '"@ + pseudo@
            + "' is not allowed inside of a ':local()' or ':global()'"@,
        WarningKind::MissingWhitespace { surrounding } => "Missing "@ + surrounding@ + " whitespace"@,
        WarningKind::NotPure { message } => "Pure globals is not allowed in pure mode, "@ + message@,
        WarningKind::UnexpectedComposition { message } => "Composition is "@ + message@,
    }
}

/// `s` is the text of the input at bytes `start..end`.
pub open spec fn is_text_at(input: Seq<u8>, s: &str, start: int, end: int) -> bool {
    &&& 0 <= start <= end <= input.len()
    &&& s.spec_bytes() == input.subrange(start, end)
}

/// `s` is a piece of the text of the input.
pub open spec fn is_text_in(input: Seq<u8>, s: &str) -> bool {
    exists|a: int, b: int| is_text_at(input, s, a, b)
}

pub open spec fn opt_text_in(input: Seq<u8>, s: Option<&str>) -> bool {
    s matches Some(t) ==> is_text_in(input, t)
}

/// Both ends of `r` are offsets in the input.
pub open spec fn range_within(input: Seq<u8>, r: Range) -> bool {
    r.start <= input.len() && r.end <= input.len()
}

/// A dependency of plain CSS: a `url()` or an `@import`.
pub open spec fn is_css_dependency(d: Dependency) -> bool {
    d is Url || d is Import
}

/// What every dependency reported for `input` satisfies: its range lies in the
/// input, a local name is the text at its range (after the `--` of a dashed
/// name), and the other strings are pieces of the input.
pub open spec fn dependency_wf(input: Seq<u8>, d: Dependency) -> bool {
    match d {
        Dependency::Url { request, range, .. } => range_within(input, range) && is_text_in(
            input,
            request,
        ),
        Dependency::Import { request, range, layer, supports, media } => {
            &&& range_within(input, range)
            &&& is_text_in(input, request)
            &&& opt_text_in(input, layer)
            &&& opt_text_in(input, supports)
            &&& opt_text_in(input, media)
        },
        Dependency::Replace { content, range } => range_within(input, range)
            && content.spec_bytes().len() == 0,
        Dependency::LocalClass { name, range, .. } => is_text_at(
            input,
            name,
            range.start as int,
            range.end as int,
        ),
        Dependency::LocalId { name, range, .. } => is_text_at(
            input,
            name,
            range.start as int,
            range.end as int,
        ),
        Dependency::LocalVar { name, range, from } => {
            &&& range.start <= range.end
            &&& is_text_at(input, name, range.start + 2, range.end as int)
            &&& opt_text_in(input, from)
        },
        Dependency::LocalVarDecl { name, range } => range.start <= range.end && is_text_at(
            input,
            name,
            range.start + 2,
            range.end as int,
        ),
        Dependency::LocalPropertyDecl { name, range } => range.start <= range.end && is_text_at(
            input,
            name,
            range.start + 2,
            range.end as int,
        ),
        Dependency::LocalKeyframes { name, range } => is_text_at(
            input,
            name,
            range.start as int,
            range.end as int,
        ),
        Dependency::LocalKeyframesDecl { name, range } => is_text_at(
            input,
            name,
            range.start as int,
            range.end as int,
        ),
        Dependency::LocalCounterStyle { name, range } => is_text_at(
            input,
            name,
            range.start as int,
            range.end as int,
        ),
        Dependency::LocalCounterStyleDecl { name, range } => is_text_at(
            input,
            name,
            range.start as int,
            range.end as int,
        ),
        Dependency::LocalFontPalette { name, range } => range.start <= range.end && is_text_at(
            input,
            name,
            range.start + 2,
            range.end as int,
        ),
        Dependency::LocalFontPaletteDecl { name, range } => range.start <= range.end
            && is_text_at(input, name, range.start + 2, range.end as int),
        Dependency::Composes { range, .. } => range_within(input, range),
        Dependency::ICSSImportFrom { path } => is_text_in(input, path),
        Dependency::ICSSImportValue { prop, value } => is_text_in(input, prop) && is_text_in(
            input,
            value,
        ),
        Dependency::ICSSExportValue { prop, value } => is_text_in(input, prop) && is_text_in(
            input,
            value,
        ),
    }
}

/// What every warning reported for `input` satisfies: its range lies in the
/// input, and the text it quotes is the text at its range, or a piece of the input.
pub open spec fn warning_wf(input: Seq<u8>, w: Warning) -> bool {
    &&& range_within(input, w.range)
    &&& match w.kind {
        WarningKind::DuplicateUrl { when } => is_text_at(
            input,
            when,
            w.range.start as int,
            w.range.end as int,
        ),
        WarningKind::ExpectedUrl { when } => is_text_at(
            input,
            when,
            w.range.start as int,
            w.range.end as int,
        ),
        WarningKind::ExpectedNotInside { pseudo } => is_text_at(
            input,
            pseudo,
            w.range.start as int,
            w.range.end as int,
        ),
        WarningKind::ExpectedUrlBefore { when } => is_text_in(input, when),
        WarningKind::ExpectedLayerBefore { when } => is_text_in(input, when),
        _ => true,
    }
}

/// Receives the dependencies found by the lexer.
pub trait HandleDependency<'s> {
    /// The dependencies received so far, in order.
    spec fn dependencies_handled(&self) -> Seq<Dependency<'s>>;

    fn handle_dependency(&mut self, dependency: Dependency<'s>)
        ensures
            final(self).dependencies_handled() == old(self).dependencies_handled().push(
                dependency,
            ),
    ;
}

/// Receives the warnings found by the lexer.
pub trait HandleWarning<'s> {
    /// The warnings received so far, in order.
    spec fn warnings_handled(&self) -> Seq<Warning<'s>>;

    fn handle_warning(&mut self, warning: Warning<'s>)
        ensures
            final(self).warnings_handled() == old(self).warnings_handled().push(warning),
    ;
}

impl<'s> HandleDependency<'s> for Vec<Dependency<'s>> {
    open spec fn dependencies_handled(&self) -> Seq<Dependency<'s>> {
        self@
    }

    fn handle_dependency(&mut self, dependency: Dependency<'s>) {
        self.push(dependency);
    }
}

impl<'s> HandleWarning<'s> for Vec<Warning<'s>> {
    open spec fn warnings_handled(&self) -> Seq<Warning<'s>> {
        self@
    }

    fn handle_warning(&mut self, warning: Warning<'s>) {
        self.push(warning);
    }
}

} // verus!
