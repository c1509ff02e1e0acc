//! Scoping the names of plain CSS locally: every local class, id and keyframes
//! name is wrapped in `:local(...)`, and `:local`/`:global` markers are dropped.
use vstd::prelude::*;
use vstd::string::StringExecFns;
use vstd::string::StringSliceAdditionalSpecFns;
use vstd::utf8::*;

use crate::dependencies::{
    is_css_dependency, Dependency, Mode, Range, Warning,
};
use crate::lex_dependencies::{collect_dependencies, lexing_yields};
use crate::text::{bytes_starts_with, bytes_starts_with_from, str_get, str_starts_with};

verus! {

/// Rewrites CSS so that its names are local by default, as the CSS Modules
/// `local-by-default` transform does.
#[derive(Debug, Clone, Hash, PartialEq, Eq, Structural)]
pub struct LocalByDefault {
    pub mode: Mode,
}

/// The UTF-8 encoding of two strings one after the other is the encoding of
/// the first followed by that of the second.
pub proof fn lemma_encode_utf8_concat(a: Seq<char>, b: Seq<char>)
    ensures
        encode_utf8(a + b) == encode_utf8(a) + encode_utf8(b),
    decreases a.len(),
{
    if a.len() > 0 {
        lemma_encode_utf8_concat(a.drop_first(), b);
        assert((a + b).drop_first() =~= a.drop_first() + b);
        assert((a + b)[0] == a[0]);
        assert(encode_scalar(a[0] as u32) + (encode_utf8(a.drop_first()) + encode_utf8(b))
            =~= (encode_scalar(a[0] as u32) + encode_utf8(a.drop_first())) + encode_utf8(b));
    } else {
        assert(a + b =~= b);
        assert(encode_utf8(a) =~= Seq::<u8>::empty());
        assert(Seq::<u8>::empty() + encode_utf8(b) =~= encode_utf8(b));
    }
}

/// `start..end` is a range of the text `input` that begins and ends between characters.
pub open spec fn is_text_range(input: Seq<u8>, start: int, end: int) -> bool {
    &&& 0 <= start <= end <= input.len()
    &&& is_char_boundary(input, start)
    &&& is_char_boundary(input, end)
}

/// What rewriting has built after some of the dependencies: the text so far,
/// the offset in the input up to which the input is accounted for, and the
/// names that `:import` blocks bring in.
pub struct RewriteState {
    pub text: Seq<u8>,
    pub index: int,
    pub aliases: Seq<Seq<u8>>,
}

/// `name` without its leading `.`, if it has one.
pub open spec fn strip_dot(name: Seq<u8>) -> Option<Seq<u8>> {
    if name.len() > 0 && name[0] == 0x2eu8 {
        Some(name.subrange(1, name.len() as int))
    } else {
        None
    }
}

/// Copies the input up to `range`, then writes `:local(name)` in place of `range`.
pub open spec fn wrap_local(input: Seq<u8>, st: RewriteState, name: Seq<u8>, range: Range) -> Option<
    RewriteState,
> {
    if is_text_range(input, st.index, range.start as int) {
        Some(
            RewriteState {
                text: st.text + input.subrange(st.index, range.start as int) + ":local(".spec_bytes()
                    + name + ")".spec_bytes(),
                index: range.end as int,
                aliases: st.aliases,
            },
        )
    } else {
        None
    }
}

/// One dependency's share of the rewrite; `None` where a range to copy is not
/// a piece of the input.
pub open spec fn rewrite_step(input: Seq<u8>, st: RewriteState, d: Dependency) -> Option<RewriteState> {
    match d {
        Dependency::LocalClass { name, range, explicit } => {
            if !explicit && (strip_dot(name.spec_bytes()) matches Some(n) && st.aliases.contains(n)) {
                Some(st)
            } else {
                wrap_local(input, st, name.spec_bytes(), range)
            }
        },
        Dependency::LocalId { name, range, explicit } => {
            if !explicit && (strip_dot(name.spec_bytes()) matches Some(n) && st.aliases.contains(n)) {
                Some(st)
            } else {
                wrap_local(input, st, name.spec_bytes(), range)
            }
        },
        Dependency::LocalKeyframes { name, range } => {
            if st.aliases.contains(name.spec_bytes()) {
                Some(st)
            } else {
                wrap_local(input, st, name.spec_bytes(), range)
            }
        },
        Dependency::LocalKeyframesDecl { name, range } => wrap_local(
            input,
            st,
            name.spec_bytes(),
            range,
        ),
        Dependency::Replace { content, range } => {
            if !is_text_range(input, range.start as int, range.end as int) {
                None
            } else {
                let replaced = input.subrange(range.start as int, range.end as int);
                if bytes_starts_with(replaced, ":export".spec_bytes()) || bytes_starts_with(
                    replaced,
                    ":import(".spec_bytes(),
                ) {
                    Some(st)
                } else if is_text_range(input, st.index, range.start as int) {
                    Some(
                        RewriteState {
                            text: st.text + input.subrange(st.index, range.start as int)
                                + content.spec_bytes(),
                            index: range.end as int,
                            aliases: st.aliases,
                        },
                    )
                } else {
                    None
                }
            }
        },
        Dependency::ICSSImportValue { prop, .. } => Some(
            RewriteState { aliases: st.aliases.push(prop.spec_bytes()), ..st },
        ),
        _ => Some(st),
    }
}

/// The rewrite after the dependencies `deps`, in order.
pub open spec fn rewrite_prefix(input: Seq<u8>, deps: Seq<Dependency>) -> Option<RewriteState>
    decreases deps.len(),
{
    if deps.len() == 0 {
        Some(RewriteState { text: Seq::empty(), index: 0, aliases: Seq::empty() })
    } else {
        match rewrite_prefix(input, deps.drop_last()) {
            Some(st) => rewrite_step(input, st, deps.last()),
            None => None,
        }
    }
}

/// The text of `input` made local by default, given its dependencies `deps`:
/// `None` where a range to copy is not a piece of the input.
pub open spec fn local_by_default(input: Seq<u8>, deps: Seq<Dependency>) -> Option<Seq<u8>> {
    match rewrite_prefix(input, deps) {
        Some(st) => if st.index == input.len() {
            Some(st.text)
        } else if is_text_range(input, st.index, input.len() as int) {
            Some(st.text + input.subrange(st.index, input.len() as int))
        } else {
            None
        },
        None => None,
    }
}

/// Dependencies of plain CSS (urls and imports) leave the rewrite where it began.
proof fn lemma_rewrite_prefix_css(input: Seq<u8>, deps: Seq<Dependency>)
    requires
        forall|i: int| 0 <= i < deps.len() ==> is_css_dependency(#[trigger] deps[i]),
    ensures
        rewrite_prefix(input, deps) == Some(
            RewriteState { text: Seq::empty(), index: 0, aliases: Seq::empty() },
        ),
    decreases deps.len(),
{
    if deps.len() > 0 {
        assert(is_css_dependency(deps[deps.len() - 1]));
        lemma_rewrite_prefix_css(input, deps.drop_last());
    }
}

/// Rewriting a text with only plain-CSS dependencies gives the text back unchanged.
pub proof fn lemma_local_by_default_css(input: &str, deps: Seq<Dependency>)
    requires
        forall|i: int| 0 <= i < deps.len() ==> is_css_dependency(#[trigger] deps[i]),
    ensures
        local_by_default(input.spec_bytes(), deps) == Some(input.spec_bytes()),
{
    let bytes = input.spec_bytes();
    lemma_rewrite_prefix_css(bytes, deps);
    encode_utf8_valid_utf8(input@);
    is_char_boundary_start_end_of_seq(bytes);
    assert(Seq::<u8>::empty() + bytes.subrange(0, bytes.len() as int) =~= bytes);
    if bytes.len() == 0 {
        assert(bytes =~= Seq::<u8>::empty());
    }
}

/// Once a rewrite has failed, no later dependency mends it.
proof fn lemma_rewrite_prefix_fails(input: Seq<u8>, deps: Seq<Dependency>, n: int)
    requires
        0 <= n <= deps.len(),
        rewrite_prefix(input, deps.take(n)) is None,
    ensures
        rewrite_prefix(input, deps) is None,
    decreases deps.len() - n,
{
    if n < deps.len() {
        assert(deps.take(n + 1).drop_last() =~= deps.take(n));
        lemma_rewrite_prefix_fails(input, deps, n + 1);
    } else {
        assert(deps.take(n) =~= deps);
    }
}


/// The bytes of each alias.
pub open spec fn alias_bytes(aliases: Seq<&str>) -> Seq<Seq<u8>> {
    aliases.map_values(|a: &str| a.spec_bytes())
}

/// Appends `piece` to `result`.
fn append_str(result: &mut String, piece: &str)
    ensures
        encode_utf8(final(result)@) == encode_utf8(old(result)@) + piece.spec_bytes(),
{
    proof {
        lemma_encode_utf8_concat(result@, piece@);
    }
    result.append(piece);
}

/// Appends the piece `start..end` of `input` to `result`; false, with `result`
/// unchanged, where that range is not a piece of the input.
fn append_slice(result: &mut String, input: &str, start: u32, end: u32) -> (ok: bool)
    requires
        input.spec_bytes().len() <= u32::MAX,
    ensures
        ok == is_text_range(input.spec_bytes(), start as int, end as int),
        ok ==> encode_utf8(final(result)@) == encode_utf8(old(result)@) + input.spec_bytes().subrange(
            start as int,
            end as int,
        ),
        !ok ==> final(result)@ == old(result)@,
{
    match str_get(input, start as usize, end as usize) {
        Some(piece) => {
            append_str(result, piece);
            true
        },
        None => false,
    }
}

/// Whether the bytes of `name` from `skip` on are one of the aliases.
fn has_alias(aliases: &Vec<&str>, name: &str, skip: usize) -> (r: bool)
    requires
        skip <= name.spec_bytes().len(),
    ensures
        r == alias_bytes(aliases@).contains(
            name.spec_bytes().subrange(skip as int, name.spec_bytes().len() as int),
        ),
{
    let ghost wanted = name.spec_bytes().subrange(skip as int, name.spec_bytes().len() as int);
    let bytes = name.as_bytes();
    let mut i: usize = 0;
    while i < aliases.len()
        invariant
            i <= aliases@.len(),
            bytes@ == name.spec_bytes(),
            skip <= bytes@.len(),
            wanted == bytes@.subrange(skip as int, bytes@.len() as int),
            forall|j: int| 0 <= j < i ==> aliases@[j].spec_bytes() != wanted,
        decreases aliases@.len() - i,
    {
        let alias = aliases[i].as_bytes();
        if alias.len() == bytes.len() - skip && bytes_starts_with_from(bytes, skip, alias) {
            proof {
                assert(wanted.subrange(0, alias@.len() as int) =~= wanted);
                assert(alias_bytes(aliases@)[i as int] == wanted);
            }
            return true;
        }
        proof {
            if alias@ == wanted {
                assert(wanted.subrange(0, alias@.len() as int) =~= wanted);
            }
        }
        i = i + 1;
    }
    proof {
        if alias_bytes(aliases@).contains(wanted) {
            let k = choose|k: int| 0 <= k < alias_bytes(aliases@).len() && alias_bytes(aliases@)[k] == wanted;
            assert(aliases@[k].spec_bytes() == wanted);
        }
    }
    false
}

/// Whether `name` is an alias, or, where `strip` holds, a `.` and then an alias.
fn is_aliased(aliases: &Vec<&str>, name: &str, strip: bool) -> (r: bool)
    ensures
        strip ==> r == (strip_dot(name.spec_bytes()) matches Some(n) && alias_bytes(aliases@).contains(n)),
        !strip ==> r == alias_bytes(aliases@).contains(name.spec_bytes()),
{
    let bytes = name.as_bytes();
    if strip {
        if bytes.len() > 0 && bytes[0] == 0x2eu8 {
            has_alias(aliases, name, 1)
        } else {
            false
        }
    } else {
        let r = has_alias(aliases, name, 0);
        proof {
            assert(name.spec_bytes().subrange(0, name.spec_bytes().len() as int) =~= name.spec_bytes());
        }
        r
    }
}


/// Copies the input from `index` up to `range` into `result`, then writes
/// `:local(name)` in place of `range`.
fn write_local(
    result: &mut String,
    input: &str,
    index: &mut u32,
    name: &str,
    range: Range,
    Ghost(aliases): Ghost<Seq<Seq<u8>>>,
) -> (ok: bool)
    requires
        input.spec_bytes().len() <= u32::MAX,
    ensures
        wrap_local(
            input.spec_bytes(),
            RewriteState { text: encode_utf8(old(result)@), index: *old(index) as int, aliases },
            name.spec_bytes(),
            range,
        ) == (if ok {
            Some(
                RewriteState {
                    text: encode_utf8(final(result)@),
                    index: *final(index) as int,
                    aliases,
                },
            )
        } else {
            None
        }),
{
    if append_slice(result, input, *index, range.start) {
        append_str(result, ":local(");
        append_str(result, name);
        append_str(result, ")");
        *index = range.end;
        true
    } else {
        false
    }
}

/// Applies one dependency to the rewrite: `result` is the text so far,
/// `index` the offset up to which the input is accounted for, `aliases` the
/// names brought in by `:import` blocks.
fn apply_dependency<'s>(
    result: &mut String,
    index: &mut u32,
    aliases: &mut Vec<&'s str>,
    input: &'s str,
    dependency: &Dependency<'s>,
) -> (ok: bool)
    requires
        input.spec_bytes().len() <= u32::MAX,
    ensures
        rewrite_step(
            input.spec_bytes(),
            RewriteState {
                text: encode_utf8(old(result)@),
                index: *old(index) as int,
                aliases: alias_bytes(old(aliases)@),
            },
            *dependency,
        ) == (if ok {
            Some(
                RewriteState {
                    text: encode_utf8(final(result)@),
                    index: *final(index) as int,
                    aliases: alias_bytes(final(aliases)@),
                },
            )
        } else {
            None
        }),
{
    let ghost st = RewriteState {
        text: encode_utf8(result@),
        index: *index as int,
        aliases: alias_bytes(aliases@),
    };
    match dependency {
        Dependency::LocalClass { name, range, explicit } => {
            if !*explicit && is_aliased(aliases, name, true) {
                true
            } else {
                write_local(result, input, index, name, *range, Ghost(st.aliases))
            }
        },
        Dependency::LocalId { name, range, explicit } => {
            if !*explicit && is_aliased(aliases, name, true) {
                true
            } else {
                write_local(result, input, index, name, *range, Ghost(st.aliases))
            }
        },
        Dependency::LocalKeyframes { name, range } => {
            if is_aliased(aliases, name, false) {
                true
            } else {
                write_local(result, input, index, name, *range, Ghost(st.aliases))
            }
        },
        Dependency::LocalKeyframesDecl { name, range } => {
            write_local(result, input, index, name, *range, Ghost(st.aliases))
        },
        Dependency::Replace { content, range } => {
            match str_get(input, range.start as usize, range.end as usize) {
                None => false,
                Some(replaced) => {
                    if str_starts_with(replaced, ":export") || str_starts_with(
                        replaced,
                        ":import(",
                    ) {
                        true
                    } else if append_slice(result, input, *index, range.start) {
                        append_str(result, content);
                        *index = range.end;
                        true
                    } else {
                        false
                    }
                },
            }
        },
        Dependency::ICSSImportValue { prop, .. } => {
            aliases.push(*prop);
            proof {
                assert(alias_bytes(aliases@) =~= st.aliases.push(prop.spec_bytes()));
            }
            true
        },
        _ => true,
    }
}

/// The text of `input` made local by default, given its dependencies in the
/// order found: each local class, id and keyframes name that an `:import`
/// block does not bring in becomes `:local(name)`, and each `:local`/`:global`
/// marker is replaced by its content. `None` where a range to copy is not a
/// piece of the input.
pub fn rewrite_local_by_default<'s>(input: &'s str, dependencies: &Vec<Dependency<'s>>) -> (r: Option<
    String,
>)
    requires
        input.spec_bytes().len() <= u32::MAX,
    ensures
        match local_by_default(input.spec_bytes(), dependencies@) {
            Some(t) => r matches Some(s) && encode_utf8(s@) == t,
            None => r is None,
        },
{
    let ghost bytes = input.spec_bytes();
    let ghost deps = dependencies@;
    let mut result = String::new();
    let mut index: u32 = 0;
    let mut aliases: Vec<&'s str> = Vec::new();
    proof {
        assert(deps.take(0) =~= Seq::<Dependency<'s>>::empty());
        assert(encode_utf8(result@) =~= Seq::<u8>::empty());
        assert(alias_bytes(aliases@) =~= Seq::<Seq<u8>>::empty());
    }
    let mut i: usize = 0;
    while i < dependencies.len()
        invariant
            bytes == input.spec_bytes(),
            bytes.len() <= u32::MAX,
            deps == dependencies@,
            i <= deps.len(),
            rewrite_prefix(bytes, deps.take(i as int)) == Some(
                RewriteState {
                    text: encode_utf8(result@),
                    index: index as int,
                    aliases: alias_bytes(aliases@),
                },
            ),
        decreases deps.len() - i,
    {
        proof {
            assert(deps.take(i + 1).drop_last() =~= deps.take(i as int));
            assert(deps.take(i + 1).last() == deps[i as int]);
        }
        let ok = apply_dependency(&mut result, &mut index, &mut aliases, input, &dependencies[i]);
        if !ok {
            proof {
                lemma_rewrite_prefix_fails(bytes, deps, i + 1);
            }
            return None;
        }
        i = i + 1;
    }
    proof {
        assert(deps.take(deps.len() as int) =~= deps);
    }
    let len = input.len() as u32;
    if index != len {
        if !append_slice(&mut result, input, index, len) {
            return None;
        }
    }
    Some(result)
}

impl LocalByDefault {
    /// Makes the names of `input` local by default: lexes it as a CSS module
    /// in `self.mode` and rewrites it from the dependencies found. Where the
    /// dependencies do not fit the text (a range to copy is not a piece of
    /// it), the text is given back unchanged.
    pub fn transform<'s>(&self, input: &'s str) -> (r: (String, Vec<Warning<'s>>))
        requires
            input.spec_bytes().len() <= u32::MAX,
        ensures
            exists|deps: Seq<Dependency<'s>>|
                #![trigger local_by_default(input.spec_bytes(), deps)]
                {
                    &&& lexing_yields(input, self.mode, deps, r.1@)
                    &&& match local_by_default(input.spec_bytes(), deps) {
                        Some(t) => encode_utf8(r.0@) == t,
                        None => r.0@ == input@,
                    }
                },
            self.mode == Mode::Css ==> r.0@ == input@,
    {
        let (dependencies, warnings) = collect_dependencies(input, self.mode);
        let text = match rewrite_local_by_default(input, &dependencies) {
            Some(text) => text,
            None => String::from_str(input),
        };
        assert(match local_by_default(input.spec_bytes(), dependencies@) {
            Some(t) => encode_utf8(text@) == t,
            None => text@ == input@,
        });
        proof {
            if self.mode == Mode::Css {
                lemma_local_by_default_css(input, dependencies@);
                encode_utf8_decode_utf8(text@);
                encode_utf8_decode_utf8(input@);
            }
        }
        (text, warnings)
    }
}

} // verus!
