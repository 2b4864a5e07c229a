//! Properties of the rendering that hold for every input.
use vstd::prelude::*;
use vstd::utf8::encode_utf8;
use crate::api::{
    build, byte_len, ends_with_newline, has_no_newline, is_public_api_of, lemma_append_line,
    mapping_ranges, maps_whole_lines, spec_ranges, whole_line_ranges, PublicApi, decl_entries, decl_entries_fn, decl_keys, impl_entries, impl_entries_fn,
    impl_item_entries_fn, is_public_item, item_entries, lemma_build_push, lemma_byte_len_concat,
    shown_items, sorted_decls, sorted_impls, spec_entries, trait_item_entries_fn, Entry,
};
use crate::model::{AssocItem, Declaration, ImplDef, ModuleDef, ModuleInfo};
use crate::order::{chars_lt, lemma_stable_order, stable_order};
use crate::render::{
    first_adt_path, first_trait_path, spec_impl_is_public_api, spec_module_path_text, spec_paths, spec_render_assoc_item,
    spec_render_impl_header, spec_render_module_def, PathsView,
};
use crate::text::{
    find, find_from, newline_index, occurs_at, pub_prefix, seq_join, spec_ensure_pub, spec_lines,
    spec_qualify_signature, spec_single_line, spec_trim_trait_prefix, strip_cr, trait_prefix,
};

verus! {


/// The first line break of `s` is at `newline_index(s)`, and none comes before it.
pub proof fn lemma_newline_index(s: Seq<char>)
    ensures
        newline_index(s) <= s.len(),
        forall|j: int| 0 <= j < newline_index(s) ==> s[j] != '\n',
        newline_index(s) < s.len() ==> s[newline_index(s) as int] == '\n',
    decreases s.len(),
{
    if s.len() > 0 && s[0] != '\n' {
        lemma_newline_index(s.drop_first());
        assert forall|j: int| 0 <= j < newline_index(s) implies s[j] != '\n' by {
            if j > 0 {
                assert(s[j] == s.drop_first()[j - 1]);
            }
        }
    }
}

/// No line of `s` holds a line break.
pub proof fn lemma_lines_have_no_newline(s: Seq<char>)
    ensures
        forall|i: int| 0 <= i < spec_lines(s).len() ==> has_no_newline(#[trigger] spec_lines(s)[i]),
    decreases s.len(),
{
    if s.len() > 0 {
        lemma_newline_index(s);
        let k = newline_index(s) as int;
        if k < s.len() {
            lemma_lines_have_no_newline(s.skip(k + 1));
            let first = strip_cr(s.take(k as int));
            assert(has_no_newline(first));
            assert forall|i: int| 0 <= i < spec_lines(s).len() implies has_no_newline(
                #[trigger] spec_lines(s)[i],
            ) by {
                if i > 0 {
                    assert(spec_lines(s)[i] == spec_lines(s.skip(k + 1))[i - 1]);
                }
            }
        }
    }
}

/// Parts without line breaks, joined by a separator without line breaks, hold none.
pub proof fn lemma_join_has_no_newline(parts: Seq<Seq<char>>, sep: Seq<char>)
    requires
        forall|i: int| 0 <= i < parts.len() ==> has_no_newline(#[trigger] parts[i]),
        has_no_newline(sep),
    ensures
        has_no_newline(seq_join(parts, sep)),
    decreases parts.len(),
{
    if parts.len() > 1 {
        lemma_join_has_no_newline(parts.drop_last(), sep);
        assert(has_no_newline(parts.last()));
        let a = seq_join(parts.drop_last(), sep);
        let r = a + sep + parts.last();
        assert forall|i: int| 0 <= i < r.len() implies r[i] != '\n' by {
            if i < a.len() {
                assert(r[i] == a[i]);
            } else if i < a.len() + sep.len() {
                assert(r[i] == sep[i - a.len()]);
            } else {
                assert(r[i] == parts.last()[i - a.len() - sep.len()]);
            }
        }
    } else if parts.len() == 1 {
        assert(has_no_newline(parts[0]));
    }
}

/// A text put on one line holds no line break.
pub proof fn lemma_single_line_has_no_newline(s: Seq<char>)
    ensures
        has_no_newline(spec_single_line(s)),
{
    lemma_lines_have_no_newline(s);
    lemma_join_has_no_newline(spec_lines(s), seq![' ']);
}

/// Putting a line on one line again changes nothing.
pub proof fn lemma_single_line_idempotent(s: Seq<char>)
    ensures
        spec_single_line(spec_single_line(s)) == spec_single_line(s),
{
    let t = spec_single_line(s);
    lemma_single_line_has_no_newline(s);
    if t.len() > 0 {
        lemma_newline_index(t);
        if newline_index(t) < t.len() {
            assert(t[newline_index(t) as int] == '\n');
        }
        assert(spec_lines(t) =~= seq![t]);
    } else {
        assert(spec_lines(t) =~= Seq::<Seq<char>>::empty());
        assert(t =~= Seq::<char>::empty());
    }
}

/// A line that holds no line break is its own single line.
pub proof fn lemma_single_line_keeps_plain_line(s: Seq<char>)
    requires
        has_no_newline(s),
    ensures
        spec_single_line(s) == s,
{
    if s.len() > 0 {
        lemma_newline_index(s);
        if newline_index(s) < s.len() {
            assert(s[newline_index(s) as int] == '\n');
        }
        assert(spec_lines(s) =~= seq![s]);
    } else {
        assert(spec_lines(s) =~= Seq::<Seq<char>>::empty());
        assert(s =~= Seq::<char>::empty());
    }
}

/// A line made public starts with `pub `, and making it public again changes nothing.
pub proof fn lemma_ensure_pub(line: Seq<char>)
    ensures
        spec_ensure_pub(line).len() >= 4,
        spec_ensure_pub(line).take(4) == pub_prefix(),
        spec_ensure_pub(spec_ensure_pub(line)) == spec_ensure_pub(line),
{
    let r = spec_ensure_pub(line);
    if !(line.len() >= 4 && line.take(4) == pub_prefix()) {
        assert(r.take(4) =~= pub_prefix());
    }
}

/// The position `find` gives is where `needle` first occurs in `hay`; when it gives none,
/// `needle` does not occur.
pub proof fn lemma_find_first(hay: Seq<char>, needle: Seq<char>)
    ensures
        match find(hay, needle) {
            Some(i) => occurs_at(hay, needle, i as int) && forall|j: int|
                0 <= j < i ==> !occurs_at(hay, needle, j),
            None => forall|j: int| !occurs_at(hay, needle, j),
        },
{
    lemma_find_from(hay, needle, 0);
}

proof fn lemma_find_from(hay: Seq<char>, needle: Seq<char>, from: nat)
    ensures
        match find_from(hay, needle, from) {
            Some(i) => i >= from && occurs_at(hay, needle, i as int) && forall|j: int|
                from <= j < i ==> !occurs_at(hay, needle, j),
            None => forall|j: int| from <= j ==> !occurs_at(hay, needle, j),
        },
    decreases hay.len() + 1 - from,
{
    if from + needle.len() > hay.len() {
    } else if hay.subrange(from as int, (from + needle.len()) as int) == needle {
    } else {
        lemma_find_from(hay, needle, from + 1);
    }
}

/// A qualified signature is the signature up to the first `keyword name`, then `keyword`,
/// a space and `path`, then the rest of the signature; without such an occurrence it is
/// the signature itself.
pub proof fn lemma_qualify_signature(
    signature: Seq<char>,
    keyword: Seq<char>,
    name: Seq<char>,
    path: Seq<char>,
)
    ensures
        match find(signature, keyword + seq![' '] + name) {
            Some(i) => spec_qualify_signature(signature, keyword, name, path) == signature.take(
                i as int,
            ) + keyword + seq![' '] + path + signature.skip(
                (i + keyword.len() + 1 + name.len()) as int,
            ),
            None => spec_qualify_signature(signature, keyword, name, path) == signature,
        },
{
    let needle = keyword + seq![' '] + name;
    lemma_find_first(signature, needle);
    if let Some(i) = find(signature, needle) {
        let ns = (i + keyword.len() + 1) as int;
        assert(signature.subrange(i as int, (i + needle.len()) as int) == needle);
        assert(signature.take(ns) =~= signature.take(i as int) + keyword + seq![' ']) by {
            assert forall|j: int| 0 <= j < ns implies signature.take(ns)[j] == (signature.take(
                i as int,
            ) + keyword + seq![' '])[j] by {
                if j >= i {
                    assert(signature[j] == needle[j - i]);
                }
            }
        }
    }
}

/// Trimming leaves no leading `trait `, and takes off only copies of `trait `.
pub proof fn lemma_trim_trait_prefix(s: Seq<char>)
    ensures
        !(spec_trim_trait_prefix(s).len() >= 6 && spec_trim_trait_prefix(s).take(6)
            == trait_prefix()),
        spec_trim_trait_prefix(s).len() <= s.len(),
        (s.len() - spec_trim_trait_prefix(s).len()) % 6 == 0,
        s.skip(s.len() - spec_trim_trait_prefix(s).len()) == spec_trim_trait_prefix(s),
    decreases s.len(),
{
    if s.len() >= 6 && s.take(6) == trait_prefix() {
        lemma_trim_trait_prefix(s.skip(6));
        let r = spec_trim_trait_prefix(s.skip(6));
        assert(s.skip(s.len() - r.len()) =~= s.skip(6).skip(s.skip(6).len() - r.len()));
    } else {
        assert(s.skip(0) =~= s);
    }
}

/// Each mapping of the built text covers the bytes of a mapped line that stands at its
/// range, with its target and name; mappings come in text order, none overlapping; and the
/// text's bytes end after the last one.
pub proof fn lemma_mappings_cover_lines(entries: Seq<Entry>)
    ensures
        ({
            let (text, ms) = build(entries);
            &&& forall|i: int|
                0 <= i < ms.len() ==> 0 <= #[trigger] ms[i].0 <= ms[i].1 < byte_len(text)
            &&& forall|i: int| 0 <= i < ms.len() ==> exists|j: int|
                0 <= j < entries.len() && entries[j].1 == Some((#[trigger] ms[i].2, ms[i].3))
                    && encode_utf8(text).subrange(ms[i].0, ms[i].1) == encode_utf8(entries[j].0)
            &&& forall|i: int, k: int| 0 <= i < k < ms.len() ==> #[trigger] ms[i].1 < #[trigger] ms[k].0
        }),
    decreases entries.len(),
{
    if entries.len() > 0 {
        let prev = entries.drop_last();
        let e = entries.last();
        lemma_mappings_cover_lines(prev);
        assert(entries =~= prev.push(e));
        lemma_build_push(prev, e);
        let (t0, ms0) = build(prev);
        let (text, ms) = build(entries);
        lemma_byte_len_concat(t0, e.0);
        lemma_byte_len_concat(t0 + e.0, seq!['\n']);
        assert(byte_len(seq!['\n']) == 1) by {
            reveal_with_fuel(encode_utf8, 2);
        }
        let bytes = encode_utf8(text);
        assert(byte_len(text) == byte_len(t0) + byte_len(e.0) + 1);
        match e.1 {
            Some((nav, name)) => {
                assert(ms == ms0.push((byte_len(t0), byte_len(t0) + byte_len(e.0), nav, name)));
            },
            None => {
                assert(ms == ms0);
            },
        }
        assert forall|i: int| 0 <= i < ms.len() implies 0 <= #[trigger] ms[i].0 <= ms[i].1
            < byte_len(text) by {
            if i < ms0.len() {
                assert(ms[i] == ms0[i]);
            }
        }
        assert forall|i: int, k: int| 0 <= i < k < ms.len() implies #[trigger] ms[i].1
            < #[trigger] ms[k].0 by {
            assert(ms[i] == ms0[i]);
            assert(0 <= ms0[i].0 <= ms0[i].1 < byte_len(t0));
            if k < ms0.len() {
                assert(ms[k] == ms0[k]);
            }
        }
        assert(bytes == encode_utf8(t0) + encode_utf8(e.0) + encode_utf8(seq!['\n']));
        assert forall|i: int| 0 <= i < ms.len() implies exists|j: int|
            0 <= j < entries.len() && entries[j].1 == Some((#[trigger] ms[i].2, ms[i].3))
                && encode_utf8(text).subrange(ms[i].0, ms[i].1) == encode_utf8(entries[j].0) by {
            if i < ms0.len() {
                let j = choose|j: int|
                    0 <= j < prev.len() && prev[j].1 == Some((ms0[i].2, ms0[i].3))
                        && encode_utf8(t0).subrange(ms0[i].0, ms0[i].1) == encode_utf8(prev[j].0);
                assert(ms[i] == ms0[i]);
                assert(entries[j] == prev[j]);
                assert(bytes.subrange(ms[i].0, ms[i].1) =~= encode_utf8(t0).subrange(
                    ms[i].0,
                    ms[i].1,
                ));
            } else {
                let j = entries.len() - 1;
                assert(bytes.subrange(ms[i].0, ms[i].1) =~= encode_utf8(e.0));
                assert(entries[j] == e);
            }
        }
    }
}

/// Lines of text that each end in `\n`, followed by more text, split into their own lines
/// and then the lines of the rest.
proof fn lemma_lines_concat(a: Seq<char>, b: Seq<char>)
    requires
        a.len() == 0 || a.last() == '\n',
    ensures
        spec_lines(a + b) == spec_lines(a) + spec_lines(b),
    decreases a.len(),
{
    if a.len() == 0 {
        assert(a + b =~= b);
        assert(spec_lines(a) =~= Seq::<Seq<char>>::empty());
        assert(spec_lines(a) + spec_lines(b) =~= spec_lines(b));
    } else {
        lemma_newline_index(a);
        let k = newline_index(a) as int;
        assert(k < a.len()) by {
            if k == a.len() {
                assert(a[a.len() - 1] == '\n');
            }
        }
        lemma_newline_index(a + b);
        let k2 = newline_index(a + b) as int;
        assert(k2 == k) by {
            if k2 < k {
                assert((a + b)[k2] == a[k2]);
            } else if k2 > k {
                assert((a + b)[k] == a[k]);
            }
        }
        assert((a + b).take(k as int) =~= a.take(k as int));
        assert((a + b).skip(k + 1) =~= a.skip(k + 1) + b);
        lemma_lines_concat(a.skip(k + 1), b);
        assert(spec_lines(a + b) =~= spec_lines(a) + spec_lines(b));
    }
}

/// The lines of the built text are the entries' lines, one for each, when no line holds a
/// line break or ends in `\r`.
pub proof fn lemma_text_lines(entries: Seq<Entry>)
    requires
        forall|i: int|
            0 <= i < entries.len() ==> has_no_newline(#[trigger] entries[i].0) && !(
            entries[i].0.len() > 0 && entries[i].0.last() == '\r'),
    ensures
        spec_lines(build(entries).0) == entries.map_values(|e: Entry| e.0),
    decreases entries.len(),
{
    if entries.len() > 0 {
        let prev = entries.drop_last();
        let e = entries.last();
        assert(entries =~= prev.push(e));
        lemma_build_push(prev, e);
        lemma_text_lines(prev);
        let t0 = build(prev).0;
        assert(t0.len() == 0 || t0.last() == '\n') by {
            if prev.len() > 0 {
                lemma_build_push(prev.drop_last(), prev.last());
                assert(prev =~= prev.drop_last().push(prev.last()));
            }
        }
        let tail = e.0 + seq!['\n'];
        lemma_lines_concat(t0, tail);
        lemma_newline_index(tail);
        assert(has_no_newline(entries[entries.len() - 1].0));
        assert(has_no_newline(e.0));
        assert(!(e.0.len() > 0 && e.0.last() == '\r'));
        assert(newline_index(tail) == e.0.len()) by {
            if newline_index(tail) < e.0.len() {
                assert(tail[newline_index(tail) as int] == e.0[newline_index(tail) as int]);
            } else if newline_index(tail) > e.0.len() {
                assert(tail[e.0.len() as int] == '\n');
            }
        }
        assert(strip_cr(tail.take(e.0.len() as int)) == e.0);
        assert(tail.take(e.0.len() as int) =~= e.0);
        assert(tail.skip((e.0.len() + 1) as int) =~= Seq::<char>::empty());
        assert(spec_lines(tail.skip((e.0.len() + 1) as int)) =~= Seq::<Seq<char>>::empty());
        assert(spec_lines(tail) =~= seq![e.0]);
        assert(build(entries).0 =~= t0 + tail);
        assert(entries.map_values(|e: Entry| e.0) =~= prev.map_values(|e: Entry| e.0).push(e.0));
    }
}

/// No line of `es` holds a line break.
pub open spec fn all_single(es: Seq<Entry>) -> bool {
    forall|i: int| 0 <= i < es.len() ==> has_no_newline(#[trigger] es[i].0)
}

proof fn lemma_all_single_concat(a: Seq<Entry>, b: Seq<Entry>)
    requires
        all_single(a),
        all_single(b),
    ensures
        all_single(a + b),
{
    assert forall|i: int| 0 <= i < (a + b).len() implies has_no_newline(#[trigger] (a + b)[i].0) by {
        if i < a.len() {
            assert((a + b)[i] == a[i]);
        } else {
            assert((a + b)[i] == b[i - a.len()]);
        }
    }
}

proof fn lemma_flat_map_all_single<A>(s: Seq<A>, f: spec_fn(A) -> Seq<Entry>)
    requires
        forall|j: int| 0 <= j < s.len() ==> all_single(f(#[trigger] s[j])),
    ensures
        all_single(s.flat_map(f)),
    decreases s.len(),
{
    if s.len() == 0 {
        assert(s.flat_map(f) =~= Seq::<Entry>::empty()) by {
            reveal_with_fuel(Seq::flatten, 1);
        }
    } else {
        let prev = s.drop_last();
        assert forall|j: int| 0 <= j < prev.len() implies all_single(f(#[trigger] prev[j])) by {
            assert(prev[j] == s[j]);
        }
        lemma_flat_map_all_single(prev, f);
        assert(s =~= prev.push(s.last()));
        prev.lemma_flat_map_push(f, s.last());
        assert(all_single(f(s[s.len() - 1])));
        lemma_all_single_concat(prev.flat_map(f), f(s.last()));
    }
}

proof fn lemma_item_entries_single(
    item: AssocItem,
    container: crate::render::AssocItemContainer,
    paths: PathsView,
)
    ensures
        all_single(item_entries(item, container, paths)),
{
    match item.name {
        Some(name) => {
            match spec_render_assoc_item(item, container, paths) {
                Some(line) => {
                    let owner = match container {
                        crate::render::AssocItemContainer::Trait(t) => crate::render::or_else(
                            (paths.1)(t.id),
                            crate::render::spec_def_path(t.module, t.name@),
                        ),
                        crate::render::AssocItemContainer::Impl(imp) => Some(
                            crate::render::spec_rendered_impl_self_ty(*imp, paths),
                        ),
                    };
                    let l = spec_qualify_signature(
                        item.display@,
                        crate::render::assoc_keyword(item.kind),
                        name@,
                        owner.unwrap() + "::"@ + name@,
                    );
                    lemma_single_line_has_no_newline(l);
                    lemma_single_line_has_no_newline(spec_ensure_pub(l));
                },
                None => {},
            }
        },
        None => {},
    }
}

proof fn lemma_decl_entries_single(d: Declaration, module_name: Seq<char>, paths: PathsView)
    ensures
        all_single(decl_entries(d, module_name, paths)),
{
    let head = match spec_render_module_def(d.def, crate::api::shown_path(d, module_name)) {
        Some(line) => seq![crate::api::nav_entry(line, d.nav)],
        None => Seq::empty(),
    };
    assert(all_single(head)) by {
        if let Some(line) = spec_render_module_def(d.def, crate::api::shown_path(d, module_name)) {
            lemma_render_module_def_single(d.def, crate::api::shown_path(d, module_name));
        }
    }
    let items = match d.def {
        ModuleDef::Trait(t) => t.items@.flat_map(trait_item_entries_fn(t, paths)),
        _ => Seq::empty(),
    };
    assert(all_single(items)) by {
        if let ModuleDef::Trait(t) = d.def {
            let f = trait_item_entries_fn(t, paths);
            assert forall|j: int| 0 <= j < t.items@.len() implies all_single(
                f(#[trigger] t.items@[j]),
            ) by {
                lemma_item_entries_single(
                    t.items@[j],
                    crate::render::AssocItemContainer::Trait(&t),
                    paths,
                );
            }
            lemma_flat_map_all_single(t.items@, f);
        }
    }
    lemma_all_single_concat(head, items);
}

/// Every line a declaration renders to is a single line.
pub proof fn lemma_render_module_def_single(def: ModuleDef, path: Seq<char>)
    ensures
        spec_render_module_def(def, path) matches Some(line) ==> has_no_newline(line),
{
    let line: Option<Seq<char>> = match def {
        ModuleDef::Module(m) => Some("pub mod "@ + spec_module_path_text(m)),
        ModuleDef::Function(f) => Some(spec_qualify_signature(f.display@, "fn"@, f.name@, path)),
        ModuleDef::Adt(a) => Some(crate::render::spec_render_adt(a, path)),
        ModuleDef::Const(c) => match c.name {
            Some(n) => Some(spec_qualify_signature(c.display@, "const"@, n@, path)),
            None => None,
        },
        ModuleDef::Static(s) => Some(spec_qualify_signature(s.display@, "static"@, s.name@, path)),
        ModuleDef::Trait(t) => Some(spec_qualify_signature(t.display@, "trait"@, t.name@, path)),
        ModuleDef::TypeAlias(t) => Some(spec_qualify_signature(t.display@, "type"@, t.name@, path)),
        ModuleDef::Macro(m) => Some(
            spec_qualify_signature(m.display@, "macro_rules!"@, m.name@, path),
        ),
        ModuleDef::EnumVariant => None,
        ModuleDef::BuiltinType => None,
    };
    if let Some(l) = line {
        lemma_single_line_has_no_newline(l);
    }
}

proof fn lemma_impl_entries_single(imp: ImplDef, paths: PathsView)
    ensures
        all_single(impl_entries(imp, paths)),
{
    if spec_impl_is_public_api(imp) {
        let items = shown_items(imp);
        if !(items.len() == 0 && imp.trait_ is None) {
            if let Some(header) = spec_render_impl_header(imp, paths) {
                let self_ty = crate::render::spec_rendered_impl_self_ty(imp, paths);
                let line = match imp.trait_ {
                    Some(t) => "impl "@ + crate::render::spec_impl_trait_path(t, paths) + " for "@
                        + self_ty,
                    None => "impl "@ + self_ty,
                };
                lemma_single_line_has_no_newline(line);
                let head = seq![(header, crate::api::impl_target(imp.nav))];
                assert(all_single(head));
                let sorted = crate::render::arranged(
                    items,
                    stable_order(crate::api::item_keys(items)),
                );
                let f = impl_item_entries_fn(imp, paths);
                assert forall|j: int| 0 <= j < sorted.len() implies all_single(
                    f(#[trigger] sorted[j]),
                ) by {
                    lemma_item_entries_single(
                        sorted[j],
                        crate::render::AssocItemContainer::Impl(&imp),
                        paths,
                    );
                }
                lemma_flat_map_all_single(sorted, f);
                lemma_all_single_concat(head, sorted.flat_map(f));
            }
        }
    }
}

/// Every line of a module's public interface after its first is a single line; the first,
/// `pub mod` and the module's path, is one too when that path holds no line break.
pub proof fn lemma_view_lines_are_single(m: ModuleInfo)
    ensures
        forall|i: int|
            1 <= i < spec_entries(m).len() ==> has_no_newline(#[trigger] spec_entries(m)[i].0),
        has_no_newline(spec_module_path_text(m.path)) ==> all_single(spec_entries(m)),
{
    let module_name = spec_module_path_text(m.path);
    let decls = sorted_decls(m);
    let paths = spec_paths(module_name, decls);
    let f = decl_entries_fn(module_name, paths);
    assert forall|j: int| 0 <= j < decls.len() implies all_single(f(#[trigger] decls[j])) by {
        lemma_decl_entries_single(decls[j], module_name, paths);
    }
    lemma_flat_map_all_single(decls, f);
    let impls = sorted_impls(m, paths);
    let g = impl_entries_fn(paths);
    assert forall|j: int| 0 <= j < impls.len() implies all_single(g(#[trigger] impls[j])) by {
        lemma_impl_entries_single(impls[j], paths);
    }
    lemma_flat_map_all_single(impls, g);
    let rest = decls.flat_map(f) + impls.flat_map(g);
    lemma_all_single_concat(decls.flat_map(f), impls.flat_map(g));
    let first = seq![("pub mod "@ + module_name, Some((m.nav, module_name)))];
    assert(spec_entries(m) =~= first + rest);
    assert forall|i: int| 1 <= i < spec_entries(m).len() implies has_no_newline(
        #[trigger] spec_entries(m)[i].0,
    ) by {
        assert(spec_entries(m)[i] == rest[i - 1]);
    }
    if has_no_newline(module_name) {
        let l = "pub mod "@ + module_name;
        assert(has_no_newline(l)) by {
            reveal_strlit("pub mod ");
            assert forall|i: int| 0 <= i < l.len() implies l[i] != '\n' by {
                if i >= 8 {
                    assert(l[i] == module_name[i - 8]);
                }
            }
        }
        lemma_all_single_concat(first, rest);
    }
}

/// The declarations are listed ordered by name, each once.
pub proof fn lemma_decls_in_name_order(m: ModuleInfo)
    requires
        m.declarations@.len() <= usize::MAX,
    ensures
        sorted_decls(m).len() == m.declarations@.len(),
        forall|i: int, j: int|
            0 <= i < j < sorted_decls(m).len() ==> #[trigger] sorted_decls(m)[i].name@
                == #[trigger] sorted_decls(m)[j].name@ || chars_lt(
                sorted_decls(m)[i].name@,
                sorted_decls(m)[j].name@,
            ),
        forall|v: int|
            0 <= v < m.declarations@.len() ==> sorted_decls(m).contains(
                #[trigger] m.declarations@[v],
            ),
{
    let keys = decl_keys(m.declarations@);
    lemma_stable_order(keys);
    let order = stable_order(keys);
    let sd = sorted_decls(m);
    assert forall|i: int, j: int| 0 <= i < j < sd.len() implies #[trigger] sd[i].name@
        == #[trigger] sd[j].name@ || chars_lt(sd[i].name@, sd[j].name@) by {
        assert(crate::order::entry_lt(keys, order[i] as int, order[j] as int));
    }
    assert forall|v: int| 0 <= v < m.declarations@.len() implies sd.contains(
        #[trigger] m.declarations@[v],
    ) by {
        assert(crate::order::lists(order, v));
        let i = choose|i: int| 0 <= i < order.len() && order[i] == v;
        assert(sd[i] == m.declarations@[v]);
    }
}

/// An inherent impl shows only its public items; a trait impl shows all of them.
pub proof fn lemma_shown_items(imp: ImplDef)
    ensures
        imp.trait_ is None ==> forall|i: int|
            0 <= i < shown_items(imp).len() ==> (#[trigger] shown_items(imp)[i]).is_public,
        imp.trait_ is Some ==> shown_items(imp) == imp.items@,
{
    if imp.trait_ is None {
        assert forall|i: int| 0 <= i < shown_items(imp).len() implies (
        #[trigger] shown_items(imp)[i]).is_public by {
            imp.items@.lemma_filter_pred(is_public_item(), i);
        }
    }
}

/// An impl for a private type, or of a private trait, shows nothing.
pub proof fn lemma_private_impl_hidden(imp: ImplDef, paths: PathsView)
    ensures
        !spec_impl_is_public_api(imp) ==> impl_entries(imp, paths) == Seq::<Entry>::empty(),
{
}

/// Joined parts start with the first part.
proof fn lemma_join_starts_with_first(parts: Seq<Seq<char>>, sep: Seq<char>)
    requires
        parts.len() > 0,
    ensures
        seq_join(parts, sep).len() >= parts[0].len(),
        seq_join(parts, sep).take(parts[0].len() as int) == parts[0],
    decreases parts.len(),
{
    if parts.len() > 1 {
        lemma_join_starts_with_first(parts.drop_last(), sep);
        let a = seq_join(parts.drop_last(), sep);
        assert((a + sep + parts.last()).take(parts[0].len() as int) =~= a.take(
            parts[0].len() as int,
        ));
    }
}

/// A text that starts with `pub ` still does once put on one line.
pub proof fn lemma_single_line_keeps_pub(s: Seq<char>)
    requires
        s.len() >= 4,
        s.take(4) == pub_prefix(),
    ensures
        spec_single_line(s).len() >= 4,
        spec_single_line(s).take(4) == pub_prefix(),
{
    lemma_newline_index(s);
    let k = newline_index(s) as int;
    assert(k >= 4) by {
        if k < 4 {
            assert(s[k] == s.take(4)[k]);
        }
    }
    let first = spec_lines(s)[0];
    if k < s.len() {
        let t = s.take(k);
        assert(first == strip_cr(t));
        assert(strip_cr(t).len() >= 4 && strip_cr(t).take(4) =~= pub_prefix()) by {
            if t.len() > 0 && t.last() == '\r' {
                assert(k > 4) by {
                    if k == 4 {
                        assert(t.last() == s.take(4)[3]);
                    }
                }
            }
        }
    } else {
        assert(first == s);
    }
    lemma_join_starts_with_first(spec_lines(s), seq![' ']);
    assert(spec_single_line(s).take(4) =~= first.take(4));
}

/// Every line shown for an item of a trait impl starts with `pub `.
pub proof fn lemma_trait_impl_items_are_pub(item: AssocItem, imp: ImplDef, paths: PathsView)
    requires
        imp.trait_ is Some,
    ensures
        spec_render_assoc_item(item, crate::render::AssocItemContainer::Impl(&imp), paths) matches Some(
            line,
        ) ==> line.len() >= 4 && line.take(4) == pub_prefix(),
{
    if let Some(name) = item.name {
        let owner = crate::render::spec_rendered_impl_self_ty(imp, paths);
        let l = spec_qualify_signature(
            item.display@,
            crate::render::assoc_keyword(item.kind),
            name@,
            owner + "::"@ + name@,
        );
        lemma_ensure_pub(l);
        lemma_single_line_keeps_pub(spec_ensure_pub(l));
    }
}

/// Built from lines without line breaks, the text ends in a line break and each mapping's
/// range covers one whole line of its bytes, in text order.
pub proof fn lemma_build_whole_lines(entries: Seq<Entry>)
    requires
        all_single(entries),
    ensures
        whole_line_ranges(build(entries).0, spec_ranges(build(entries).1)),
        ends_with_newline(build(entries).0),
    decreases entries.len(),
{
    if entries.len() == 0 {
        assert(spec_ranges(build(entries).1) =~= Seq::<(int, int)>::empty());
    } else {
        let prev = entries.drop_last();
        let e = entries.last();
        assert(entries =~= prev.push(e));
        assert(all_single(prev)) by {
            assert forall|i: int| 0 <= i < prev.len() implies has_no_newline(#[trigger] prev[i].0) by {
                assert(prev[i] == entries[i]);
            }
        }
        assert(has_no_newline(entries[entries.len() - 1].0));
        lemma_build_whole_lines(prev);
        lemma_build_push(prev, e);
        let (t0, ms0) = build(prev);
        lemma_append_line(t0, e.0, spec_ranges(ms0));
        match e.1 {
            Some((nav, name)) => {
                assert(spec_ranges(build(entries).1) =~= spec_ranges(ms0).push(
                    (byte_len(t0), byte_len(t0) + byte_len(e.0)),
                ));
            },
            None => {
                assert(spec_ranges(build(entries).1) =~= spec_ranges(ms0));
            },
        }
    }
}

/// In the public interface of a module whose path holds no line break, the text ends in a
/// line break, each mapping covers exactly one whole line of the text's bytes, mappings come
/// in text order, and each mapping's kind is its target's.
pub proof fn lemma_public_api_whole_lines(m: ModuleInfo, r: PublicApi)
    requires
        is_public_api_of(m, r),
        has_no_newline(spec_module_path_text(m.path)),
    ensures
        maps_whole_lines(r.text@, r.mappings@),
{
    lemma_view_lines_are_single(m);
    lemma_build_whole_lines(spec_entries(m));
    let ms = build(spec_entries(m)).1;
    assert(mapping_ranges(r.mappings@) =~= spec_ranges(ms)) by {
        assert forall|i: int| 0 <= i < r.mappings@.len() implies mapping_ranges(r.mappings@)[i]
            == spec_ranges(ms)[i] by {
            assert(crate::api::mapping_matches(r.mappings@[i], ms[i]));
        }
    }
    assert forall|i: int| 0 <= i < r.mappings@.len() implies (#[trigger] r.mappings@[i]).kind
        == r.mappings@[i].target.kind by {
        assert(crate::api::mapping_matches(r.mappings@[i], ms[i]));
    }
}

/// Two results that are each the public interface of the same module agree: same text,
/// same path, and mappings with the same ranges, targets, names and kinds.
pub proof fn lemma_public_api_determined(m: ModuleInfo, r1: PublicApi, r2: PublicApi)
    requires
        is_public_api_of(m, r1),
        is_public_api_of(m, r2),
    ensures
        r1.text@ == r2.text@,
        r1.module_name@ == r2.module_name@,
        r1.mappings@.len() == r2.mappings@.len(),
        forall|i: int|
            0 <= i < r1.mappings@.len() ==> {
                &&& (#[trigger] r1.mappings@[i]).range@ == r2.mappings@[i].range@
                &&& r1.mappings@[i].target == r2.mappings@[i].target
                &&& r1.mappings@[i].name@ == r2.mappings@[i].name@
                &&& r1.mappings@[i].kind == r2.mappings@[i].kind
            },
{
    let ms = build(spec_entries(m)).1;
    assert forall|i: int| 0 <= i < r1.mappings@.len() implies {
        &&& (#[trigger] r1.mappings@[i]).range@ == r2.mappings@[i].range@
        &&& r1.mappings@[i].target == r2.mappings@[i].target
        &&& r1.mappings@[i].name@ == r2.mappings@[i].name@
        &&& r1.mappings@[i].kind == r2.mappings@[i].kind
    } by {
        assert(crate::api::mapping_matches(r1.mappings@[i], ms[i]));
        assert(crate::api::mapping_matches(r2.mappings@[i], ms[i]));
    }
}

/// The declaration `d` names the ADT `id`.
pub open spec fn names_adt(d: Declaration, id: u64) -> bool {
    d.def matches ModuleDef::Adt(a) && a.id == id
}

/// The declaration `d` names the trait `id`.
pub open spec fn names_trait(d: Declaration, id: u64) -> bool {
    d.def matches ModuleDef::Trait(t) && t.id == id
}

/// The path of an ADT is none exactly when no declaration names it, and else the module's
/// path, `::` and the name of the first declaration that does (not the item's own name).
pub proof fn lemma_first_adt_path(module_name: Seq<char>, decls: Seq<Declaration>, id: u64)
    ensures
        first_adt_path(module_name, decls, id) is None <==> forall|i: int|
            0 <= i < decls.len() ==> !names_adt(#[trigger] decls[i], id),
        first_adt_path(module_name, decls, id) matches Some(p) ==> exists|i: int|
            0 <= i < decls.len() && names_adt(#[trigger] decls[i], id) && p == module_name
                + "::"@ + decls[i].name@ && forall|j: int| 0 <= j < i ==> !names_adt(
                #[trigger] decls[j],
                id,
            ),
    decreases decls.len(),
{
    if decls.len() > 0 {
        let prev = decls.drop_last();
        lemma_first_adt_path(module_name, prev, id);
        assert forall|i: int| 0 <= i < prev.len() implies prev[i] == decls[i] by {}
        let n = decls.len() - 1;
        if first_adt_path(module_name, prev, id) is None {
            assert forall|j: int| 0 <= j < n implies !names_adt(#[trigger] decls[j], id) by {
                assert(decls[j] == prev[j]);
                assert(!names_adt(prev[j], id));
            }
            if names_adt(decls[n], id) {
                assert(decls.last() == decls[n]);
            }
        } else {
            let p = first_adt_path(module_name, prev, id).unwrap();
            let i = choose|i: int|
                0 <= i < prev.len() && names_adt(#[trigger] prev[i], id) && p == module_name
                    + "::"@ + prev[i].name@ && forall|j: int| 0 <= j < i ==> !names_adt(#[trigger] prev[j], id);
            assert(decls[i] == prev[i]);
            assert forall|j: int| 0 <= j < i implies !names_adt(#[trigger] decls[j], id) by {
                assert(decls[j] == prev[j]);
            }
        }
    }
}

/// The path of a trait is none exactly when no declaration names it, and else the module's
/// path, `::` and the name of the first declaration that does (not the item's own name).
pub proof fn lemma_first_trait_path(module_name: Seq<char>, decls: Seq<Declaration>, id: u64)
    ensures
        first_trait_path(module_name, decls, id) is None <==> forall|i: int|
            0 <= i < decls.len() ==> !names_trait(#[trigger] decls[i], id),
        first_trait_path(module_name, decls, id) matches Some(p) ==> exists|i: int|
            0 <= i < decls.len() && names_trait(#[trigger] decls[i], id) && p == module_name
                + "::"@ + decls[i].name@ && forall|j: int| 0 <= j < i ==> !names_trait(
                #[trigger] decls[j],
                id,
            ),
    decreases decls.len(),
{
    if decls.len() > 0 {
        let prev = decls.drop_last();
        lemma_first_trait_path(module_name, prev, id);
        let n = decls.len() - 1;
        if first_trait_path(module_name, prev, id) is None {
            assert forall|j: int| 0 <= j < n implies !names_trait(#[trigger] decls[j], id) by {
                assert(decls[j] == prev[j]);
                assert(!names_trait(prev[j], id));
            }
            if names_trait(decls[n], id) {
                assert(decls.last() == decls[n]);
            }
        } else {
            let p = first_trait_path(module_name, prev, id).unwrap();
            let i = choose|i: int|
                0 <= i < prev.len() && names_trait(#[trigger] prev[i], id) && p == module_name
                    + "::"@ + prev[i].name@ && forall|j: int| 0 <= j < i ==> !names_trait(#[trigger] prev[j], id);
            assert(decls[i] == prev[i]);
            assert forall|j: int| 0 <= j < i implies !names_trait(#[trigger] decls[j], id) by {
                assert(decls[j] == prev[j]);
            }
        }
    }
}

/// `sig` with its first `keyword name` turned into `keyword path`; `sig` itself when it
/// holds no `keyword name`.
pub open spec fn named_at_path(sig: Seq<char>, keyword: Seq<char>, name: Seq<char>, path: Seq<char>) -> Seq<char> {
    match find(sig, keyword + seq![' '] + name) {
        Some(i) => sig.take(i as int) + keyword + seq![' '] + path + sig.skip(
            (i + keyword.len() + 1 + name.len()) as int,
        ),
        None => sig,
    }
}

/// The line of an ADT is its signature, on one line, with the first `struct name`,
/// `enum name` or `union name` (after its kind) turned into the keyword and `path`.
pub proof fn lemma_adt_line(a: crate::model::AdtItem, path: Seq<char>)
    ensures
        crate::render::spec_render_adt(a, path) == spec_single_line(
            named_at_path(
                a.display@,
                match a.kind {
                    crate::model::AdtKind::Struct => "struct"@,
                    crate::model::AdtKind::Enum => "enum"@,
                    crate::model::AdtKind::Union => "union"@,
                },
                a.name@,
                path,
            ),
        ),
{
    lemma_qualify_signature(a.display@, crate::render::adt_keyword(a.kind), a.name@, path);
}

/// The line of a declaration shown under `path`: for a module `pub mod` and the module's
/// path; for a named item its signature with the first `keyword name` turned into the
/// keyword and `path`, with the Rust keyword of its kind; none for an unnamed constant,
/// an enum variant or a builtin type. Always on one line.
pub proof fn lemma_declaration_line(def: ModuleDef, path: Seq<char>)
    ensures
        spec_render_module_def(def, path) == match def {
            ModuleDef::Module(m) => Some(spec_single_line("pub mod "@ + spec_module_path_text(m))),
            ModuleDef::Function(f) => Some(
                spec_single_line(named_at_path(f.display@, "fn"@, f.name@, path)),
            ),
            ModuleDef::Adt(a) => Some(
                spec_single_line(
                    named_at_path(
                        a.display@,
                        match a.kind {
                            crate::model::AdtKind::Struct => "struct"@,
                            crate::model::AdtKind::Enum => "enum"@,
                            crate::model::AdtKind::Union => "union"@,
                        },
                        a.name@,
                        path,
                    ),
                ),
            ),
            ModuleDef::Const(c) => match c.name {
                Some(n) => Some(spec_single_line(named_at_path(c.display@, "const"@, n@, path))),
                None => None,
            },
            ModuleDef::Static(st) => Some(
                spec_single_line(named_at_path(st.display@, "static"@, st.name@, path)),
            ),
            ModuleDef::Trait(t) => Some(
                spec_single_line(named_at_path(t.display@, "trait"@, t.name@, path)),
            ),
            ModuleDef::TypeAlias(t) => Some(
                spec_single_line(named_at_path(t.display@, "type"@, t.name@, path)),
            ),
            ModuleDef::Macro(mc) => Some(
                spec_single_line(named_at_path(mc.display@, "macro_rules!"@, mc.name@, path)),
            ),
            ModuleDef::EnumVariant => None,
            ModuleDef::BuiltinType => None,
        },
{
    match def {
        ModuleDef::Module(m) => {},
        ModuleDef::Function(f) => {
            lemma_qualify_signature(f.display@, "fn"@, f.name@, path);
        },
        ModuleDef::Adt(a) => {
            lemma_adt_line(a, path);
            lemma_single_line_idempotent(
                named_at_path(a.display@, crate::render::adt_keyword(a.kind), a.name@, path),
            );
        },
        ModuleDef::Const(c) => {
            if let Some(n) = c.name {
                lemma_qualify_signature(c.display@, "const"@, n@, path);
            }
        },
        ModuleDef::Static(st) => {
            lemma_qualify_signature(st.display@, "static"@, st.name@, path);
        },
        ModuleDef::Trait(t) => {
            lemma_qualify_signature(t.display@, "trait"@, t.name@, path);
        },
        ModuleDef::TypeAlias(t) => {
            lemma_qualify_signature(t.display@, "type"@, t.name@, path);
        },
        ModuleDef::Macro(mc) => {
            lemma_qualify_signature(mc.display@, "macro_rules!"@, mc.name@, path);
        },
        ModuleDef::EnumVariant => {},
        ModuleDef::BuiltinType => {},
    }
}

/// The self type of an impl is shown under the path the module gives its ADT; failing that
/// under the ADT's defining module's path and its name; failing that (or for a type that is
/// no ADT) as its own rendering.
pub proof fn lemma_impl_self_ty_path(imp: ImplDef, paths: PathsView)
    ensures
        crate::render::spec_rendered_impl_self_ty(imp, paths) == match imp.self_ty.adt {
            Some(adt) => match (paths.0)(adt.id) {
                Some(p) => p,
                None => match adt.module {
                    Some(mp) => spec_module_path_text(mp) + "::"@ + adt.name@,
                    None => imp.self_ty.display@,
                },
            },
            None => imp.self_ty.display@,
        },
{
}

/// The header of an impl of a trait is `impl`, the trait under the path the module gives
/// it (failing that under its defining module's path and its name, failing that its own
/// rendering without `trait `), `for` and the shown self type; the header of an inherent
/// impl is `impl` and the shown self type. On one line.
pub proof fn lemma_impl_header_paths(imp: ImplDef, paths: PathsView)
    ensures
        spec_render_impl_header(imp, paths) == Some(
            spec_single_line(
                match imp.trait_ {
                    Some(t) => "impl "@ + match (paths.1)(t.id) {
                        Some(p) => p,
                        None => match t.module {
                            Some(mp) => spec_module_path_text(mp) + "::"@ + t.name@,
                            None => spec_trim_trait_prefix(t.display@),
                        },
                    } + " for "@ + crate::render::spec_rendered_impl_self_ty(imp, paths),
                    None => "impl "@ + crate::render::spec_rendered_impl_self_ty(imp, paths),
                },
            ),
        ),
{
}

/// The keyword an associated item's signature names it with.
pub open spec fn assoc_item_keyword(kind: crate::model::AssocKind) -> Seq<char> {
    match kind {
        crate::model::AssocKind::Function => "fn"@,
        crate::model::AssocKind::Const => "const"@,
        crate::model::AssocKind::TypeAlias => "type"@,
    }
}

/// An item of a trait is shown under the path the module gives the trait (failing that,
/// the trait's defining module's path and its name), `::` and the item's name: its
/// signature with the first `keyword name` turned into the keyword and that path, on one
/// line. An unnamed item, or one of a trait without a path, is not shown.
pub proof fn lemma_trait_item_line(item: AssocItem, t: crate::model::TraitItem, paths: PathsView)
    ensures
        spec_render_assoc_item(item, crate::render::AssocItemContainer::Trait(&t), paths) == match item.name {
            None => None,
            Some(name) => match (paths.1)(t.id) {
                Some(p) => Some(
                    spec_single_line(
                        named_at_path(item.display@, assoc_item_keyword(item.kind), name@, p + "::"@ + name@),
                    ),
                ),
                None => match t.module {
                    Some(mp) => Some(
                        spec_single_line(
                            named_at_path(
                                item.display@,
                                assoc_item_keyword(item.kind),
                                name@,
                                spec_module_path_text(mp) + "::"@ + t.name@ + "::"@ + name@,
                            ),
                        ),
                    ),
                    None => None,
                },
            },
        },
{
    if let Some(name) = item.name {
        let kw = assoc_item_keyword(item.kind);
        assert(kw == crate::render::assoc_keyword(item.kind));
        if let Some(p) = (paths.1)(t.id) {
            lemma_qualify_signature(item.display@, kw, name@, p + "::"@ + name@);
        } else if let Some(mp) = t.module {
            lemma_qualify_signature(
                item.display@,
                kw,
                name@,
                spec_module_path_text(mp) + "::"@ + t.name@ + "::"@ + name@,
            );
        }
    }
}

/// An item of an impl is shown under the shown self type, `::` and its name: its
/// signature with the first `keyword name` turned into the keyword and that path, with
/// `pub ` in front (unless it is there already) for an item of a trait impl, on one line.
pub proof fn lemma_impl_item_line(item: AssocItem, imp: ImplDef, paths: PathsView)
    ensures
        item.name is None ==> spec_render_assoc_item(item, crate::render::AssocItemContainer::Impl(&imp), paths) is None,
        item.name matches Some(name) ==> {
            let line = named_at_path(
                item.display@,
                assoc_item_keyword(item.kind),
                name@,
                crate::render::spec_rendered_impl_self_ty(imp, paths) + "::"@ + name@,
            );
            spec_render_assoc_item(item, crate::render::AssocItemContainer::Impl(&imp), paths) == Some(
                spec_single_line(
                    if imp.trait_ is Some && !(line.len() >= 4 && line.take(4) == "pub "@) {
                        "pub "@ + line
                    } else {
                        line
                    },
                ),
            )
        },
{
    reveal_strlit("pub ");
    assert("pub "@ =~= pub_prefix());
    if let Some(name) = item.name {
        let kw = assoc_item_keyword(item.kind);
        assert(kw == crate::render::assoc_keyword(item.kind));
        lemma_qualify_signature(
            item.display@,
            kw,
            name@,
            crate::render::spec_rendered_impl_self_ty(imp, paths) + "::"@ + name@,
        );
    }
}

/// Where the first declaration naming an ADT is the one at `i`, the ADT's path is the
/// module's path, `::` and that declaration's name.
pub proof fn lemma_adt_path_of_first(module_name: Seq<char>, decls: Seq<Declaration>, id: u64, i: int)
    requires
        0 <= i < decls.len(),
        names_adt(decls[i], id),
        forall|j: int| 0 <= j < i ==> !names_adt(#[trigger] decls[j], id),
    ensures
        first_adt_path(module_name, decls, id) == Some(module_name + "::"@ + decls[i].name@),
{
    lemma_first_adt_path(module_name, decls, id);
    let p = first_adt_path(module_name, decls, id).unwrap();
    let k = choose|k: int|
        0 <= k < decls.len() && names_adt(#[trigger] decls[k], id) && p == module_name + "::"@
            + decls[k].name@ && forall|j: int| 0 <= j < k ==> !names_adt(#[trigger] decls[j], id);
    if k < i {
        assert(!names_adt(decls[k], id));
    } else if i < k {
        assert(!names_adt(decls[i], id));
    }
}

/// Where the first declaration naming a trait is the one at `i`, the trait's path is the
/// module's path, `::` and that declaration's name.
pub proof fn lemma_trait_path_of_first(module_name: Seq<char>, decls: Seq<Declaration>, id: u64, i: int)
    requires
        0 <= i < decls.len(),
        names_trait(decls[i], id),
        forall|j: int| 0 <= j < i ==> !names_trait(#[trigger] decls[j], id),
    ensures
        first_trait_path(module_name, decls, id) == Some(module_name + "::"@ + decls[i].name@),
{
    lemma_first_trait_path(module_name, decls, id);
    let p = first_trait_path(module_name, decls, id).unwrap();
    let k = choose|k: int|
        0 <= k < decls.len() && names_trait(#[trigger] decls[k], id) && p == module_name + "::"@
            + decls[k].name@ && forall|j: int| 0 <= j < k ==> !names_trait(#[trigger] decls[j], id);
    if k < i {
        assert(!names_trait(decls[k], id));
    } else if i < k {
        assert(!names_trait(decls[i], id));
    }
}

/// In a module's view, an impl of a trait that a declaration of the module names shows the
/// trait under the module's path and the name of the first such declaration, in name
/// order; the trait's defining module does not matter.
pub proof fn lemma_impl_header_shows_exported_trait(m: ModuleInfo, imp: ImplDef, t: crate::model::TraitRef, i: int)
    requires
        imp.trait_ == Some(t),
        0 <= i < sorted_decls(m).len(),
        names_trait(sorted_decls(m)[i], t.id),
        forall|j: int| 0 <= j < i ==> !names_trait(#[trigger] sorted_decls(m)[j], t.id),
    ensures
        ({
            let module_name = spec_module_path_text(m.path);
            let paths = spec_paths(module_name, sorted_decls(m));
            spec_render_impl_header(imp, paths) == Some(
                spec_single_line(
                    "impl "@ + module_name + "::"@ + sorted_decls(m)[i].name@ + " for "@
                        + crate::render::spec_rendered_impl_self_ty(imp, paths),
                ),
            )
        }),
{
    let module_name = spec_module_path_text(m.path);
    let paths = spec_paths(module_name, sorted_decls(m));
    let p = module_name + "::"@ + sorted_decls(m)[i].name@;
    let self_ty = crate::render::spec_rendered_impl_self_ty(imp, paths);
    lemma_trait_path_of_first(module_name, sorted_decls(m), t.id, i);
    assert((paths.1)(t.id) == Some(p));
    lemma_impl_header_paths(imp, paths);
    assert("impl "@ + p + " for "@ + self_ty =~= "impl "@ + module_name + "::"@
        + sorted_decls(m)[i].name@ + " for "@ + self_ty);
}

/// In a module's view, an impl for an ADT that a declaration of the module names shows the
/// ADT under the module's path and the name of the first such declaration, in name order.
pub proof fn lemma_impl_self_ty_shows_exported_adt(m: ModuleInfo, imp: ImplDef, adt: crate::model::AdtRef, i: int)
    requires
        imp.self_ty.adt == Some(adt),
        0 <= i < sorted_decls(m).len(),
        names_adt(sorted_decls(m)[i], adt.id),
        forall|j: int| 0 <= j < i ==> !names_adt(#[trigger] sorted_decls(m)[j], adt.id),
    ensures
        crate::render::spec_rendered_impl_self_ty(
            imp,
            spec_paths(spec_module_path_text(m.path), sorted_decls(m)),
        ) == spec_module_path_text(m.path) + "::"@ + sorted_decls(m)[i].name@,
{
    lemma_adt_path_of_first(spec_module_path_text(m.path), sorted_decls(m), adt.id, i);
}

/// In a module's view, an item of a trait that a declaration of the module names is shown
/// under the module's path, the name of the first such declaration in name order, `::` and
/// the item's name; the trait's defining module does not matter.
pub proof fn lemma_trait_item_shows_exported_trait(
    m: ModuleInfo,
    item: AssocItem,
    t: crate::model::TraitItem,
    i: int,
)
    requires
        0 <= i < sorted_decls(m).len(),
        names_trait(sorted_decls(m)[i], t.id),
        forall|j: int| 0 <= j < i ==> !names_trait(#[trigger] sorted_decls(m)[j], t.id),
    ensures
        ({
            let module_name = spec_module_path_text(m.path);
            let paths = spec_paths(module_name, sorted_decls(m));
            let owner = module_name + "::"@ + sorted_decls(m)[i].name@;
            spec_render_assoc_item(item, crate::render::AssocItemContainer::Trait(&t), paths)
                == match item.name {
                None => None,
                Some(name) => Some(
                    spec_single_line(
                        named_at_path(item.display@, assoc_item_keyword(item.kind), name@, owner + "::"@ + name@),
                    ),
                ),
            }
        }),
{
    let module_name = spec_module_path_text(m.path);
    lemma_trait_path_of_first(module_name, sorted_decls(m), t.id, i);
    lemma_trait_item_line(item, t, spec_paths(module_name, sorted_decls(m)));
}

/// A declaration other than a module is shown under the module's path, `::` and its name
/// in the module's public scope, whatever the name of the item it declares: its entries
/// start with that line when it renders.
pub proof fn lemma_declaration_shown_under_its_name(d: Declaration, module_name: Seq<char>, paths: PathsView)
    ensures
        !(d.def is Module) ==> match spec_render_module_def(d.def, module_name + "::"@ + d.name@) {
            Some(line) => decl_entries(d, module_name, paths).len() > 0 && decl_entries(
                d,
                module_name,
                paths,
            )[0].0 == line,
            None => true,
        },
{
}

/// An inherent impl shows exactly its public items, whatever their kind, in their order.
pub proof fn lemma_inherent_impl_items_are_the_public_ones(imp: ImplDef)
    requires
        imp.trait_ is None,
    ensures
        shown_items(imp) == imp.items@.filter(|it: AssocItem| it.is_public),
{
    assert(is_public_item() =~= (|it: AssocItem| it.is_public));
}

/// The entries of the first `k` elements come first among the entries of all of them.
proof fn lemma_flat_map_prefix<A, B>(s: Seq<A>, f: spec_fn(A) -> Seq<B>, k: int)
    requires
        0 <= k <= s.len(),
    ensures
        s.take(k).flat_map(f).len() <= s.flat_map(f).len(),
        forall|j: int|
            0 <= j < s.take(k).flat_map(f).len() ==> s.flat_map(f)[j] == #[trigger] s.take(k).flat_map(
                f,
            )[j],
    decreases s.len() - k,
{
    if k < s.len() {
        lemma_flat_map_prefix(s, f, k + 1);
        s.lemma_flat_map_take_append(f, k);
        let a = s.take(k).flat_map(f);
        let b = s.take(k + 1).flat_map(f);
        assert forall|j: int| 0 <= j < a.len() implies s.flat_map(f)[j] == #[trigger] a[j] by {
            assert(b[j] == a[j]);
        }
    } else {
        assert(s.take(k) =~= s);
    }
}

/// Each entry that an element contributes stands among the entries of the sequence.
proof fn lemma_flat_map_shows<A, B>(s: Seq<A>, f: spec_fn(A) -> Seq<B>, i: int, k: int)
    requires
        0 <= i < s.len(),
        0 <= k < f(s[i]).len(),
    ensures
        exists|j: int| 0 <= j < s.flat_map(f).len() && #[trigger] s.flat_map(f)[j] == f(s[i])[k],
{
    lemma_flat_map_prefix(s, f, i + 1);
    s.lemma_flat_map_take_append(f, i);
    let j = s.take(i).flat_map(f).len() + k;
    assert(s.take(i + 1).flat_map(f)[j] == f(s[i])[k]);
    assert(s.flat_map(f)[j] == f(s[i])[k]);
}

/// A public impl shows the line of each item it is meant to show: every item of a trait
/// impl, every public item of an inherent impl, whatever its kind. The line stands among
/// the impl's entries, mapped to the item's target.
pub proof fn lemma_impl_shows_its_items(imp: ImplDef, paths: PathsView, v: int, line: Seq<char>)
    requires
        spec_impl_is_public_api(imp),
        0 <= v < imp.items@.len(),
        imp.trait_ is Some || imp.items@[v].is_public,
        spec_render_assoc_item(imp.items@[v], crate::render::AssocItemContainer::Impl(&imp), paths)
            == Some(line),
        imp.items@.len() <= usize::MAX,
    ensures
        exists|j: int|
            0 <= j < impl_entries(imp, paths).len() && #[trigger] impl_entries(imp, paths)[j]
                == crate::api::nav_entry(line, imp.items@[v].nav),
{
    let items = imp.items@;
    let shown = shown_items(imp);
    let u: int = if imp.trait_ is Some {
        v
    } else {
        items.lemma_filter_contains(is_public_item(), v);
        choose|u: int| 0 <= u < shown.len() && shown[u] == items[v]
    };
    assert(0 <= u < shown.len() && shown[u] == items[v]);
    assert(shown.len() <= items.len()) by {
        if imp.trait_ is None {
            items.lemma_filter_len(is_public_item());
        }
    }
    let keys = crate::api::item_keys(shown);
    lemma_stable_order(keys);
    let order = stable_order(keys);
    assert(crate::order::lists(order, u));
    let i = choose|i: int| 0 <= i < order.len() && order[i] == u;
    let arr = crate::render::arranged(shown, order);
    assert(arr[i] == items[v]);
    let f = impl_item_entries_fn(imp, paths);
    assert(f(arr[i]) == seq![crate::api::nav_entry(line, items[v].nav)]);
    lemma_flat_map_shows(arr, f, i, 0);
    let fm = arr.flat_map(f);
    let j = choose|j: int| 0 <= j < fm.len() && #[trigger] fm[j] == f(arr[i])[0];
    let h = spec_render_impl_header(imp, paths).unwrap();
    assert(impl_entries(imp, paths) == seq![(h, crate::api::impl_target(imp.nav))] + fm);
    assert(impl_entries(imp, paths)[j + 1] == fm[j]);
}

/// A trait declared in the module shows the line of each of its items that renders, after
/// the trait's own line, mapped to the item's target.
pub proof fn lemma_trait_shows_its_items(
    d: Declaration,
    t: crate::model::TraitItem,
    module_name: Seq<char>,
    paths: PathsView,
    v: int,
    line: Seq<char>,
)
    requires
        d.def == ModuleDef::Trait(t),
        0 <= v < t.items@.len(),
        spec_render_assoc_item(t.items@[v], crate::render::AssocItemContainer::Trait(&t), paths)
            == Some(line),
    ensures
        exists|j: int|
            0 <= j < decl_entries(d, module_name, paths).len() && #[trigger] decl_entries(
                d,
                module_name,
                paths,
            )[j] == crate::api::nav_entry(line, t.items@[v].nav),
{
    let f = trait_item_entries_fn(t, paths);
    assert(f(t.items@[v]) == seq![crate::api::nav_entry(line, t.items@[v].nav)]);
    lemma_flat_map_shows(t.items@, f, v, 0);
    let fm = t.items@.flat_map(f);
    let j = choose|j: int| 0 <= j < fm.len() && #[trigger] fm[j] == f(t.items@[v])[0];
    let es = decl_entries(d, module_name, paths);
    let head_len = es.len() - fm.len();
    assert(es[head_len + j] == fm[j]);
}

/// The view of a module shows every entry of each of its declarations, under the paths
/// its declarations give: no declaration is dropped.
pub proof fn lemma_module_shows_declarations(m: ModuleInfo, v: int, k: int)
    requires
        m.declarations@.len() <= usize::MAX,
        0 <= v < m.declarations@.len(),
        0 <= k < decl_entries(
            m.declarations@[v],
            spec_module_path_text(m.path),
            spec_paths(spec_module_path_text(m.path), sorted_decls(m)),
        ).len(),
    ensures
        exists|j: int|
            0 <= j < spec_entries(m).len() && #[trigger] spec_entries(m)[j] == decl_entries(
                m.declarations@[v],
                spec_module_path_text(m.path),
                spec_paths(spec_module_path_text(m.path), sorted_decls(m)),
            )[k],
{
    let mn = spec_module_path_text(m.path);
    let sd = sorted_decls(m);
    let paths = spec_paths(mn, sd);
    let f = decl_entries_fn(mn, paths);
    lemma_decls_in_name_order(m);
    assert(sd.contains(m.declarations@[v]));
    let i = choose|i: int| 0 <= i < sd.len() && sd[i] == m.declarations@[v];
    lemma_flat_map_shows(sd, f, i, k);
    let fm = sd.flat_map(f);
    let j = choose|j: int| 0 <= j < fm.len() && #[trigger] fm[j] == f(sd[i])[k];
    let head = seq![("pub mod "@ + mn, Some((m.nav, mn)))];
    let rest = sorted_impls(m, paths).flat_map(impl_entries_fn(paths));
    assert(spec_entries(m) == head + fm + rest);
    assert(spec_entries(m)[j + 1] == fm[j]);
}

/// The view of a module shows every entry of each of its impls: no impl is dropped (an
/// impl that is not public, or shows nothing, has no entries).
pub proof fn lemma_module_shows_impls(m: ModuleInfo, v: int, k: int)
    requires
        m.impls@.len() <= usize::MAX,
        0 <= v < m.impls@.len(),
        0 <= k < impl_entries(
            m.impls@[v],
            spec_paths(spec_module_path_text(m.path), sorted_decls(m)),
        ).len(),
    ensures
        exists|j: int|
            0 <= j < spec_entries(m).len() && #[trigger] spec_entries(m)[j] == impl_entries(
                m.impls@[v],
                spec_paths(spec_module_path_text(m.path), sorted_decls(m)),
            )[k],
{
    let mn = spec_module_path_text(m.path);
    let sd = sorted_decls(m);
    let paths = spec_paths(mn, sd);
    let g = impl_entries_fn(paths);
    let keys = crate::api::impl_keys(m.impls@, paths);
    lemma_stable_order(keys);
    let order = stable_order(keys);
    assert(crate::order::lists(order, v));
    let i = choose|i: int| 0 <= i < order.len() && order[i] == v;
    let si = sorted_impls(m, paths);
    assert(si[i] == m.impls@[v]);
    lemma_flat_map_shows(si, g, i, k);
    let fm = si.flat_map(g);
    let j = choose|j: int| 0 <= j < fm.len() && #[trigger] fm[j] == g(si[i])[k];
    let head = seq![("pub mod "@ + mn, Some((m.nav, mn)))] + sd.flat_map(decl_entries_fn(mn, paths));
    assert(spec_entries(m) == head + fm);
    assert(spec_entries(m)[head.len() + j] == fm[j]);
}

/// An impl is in the view exactly when the ADT it is for (if any) and its trait (if any)
/// are public, and it implements a trait or has a public item.
pub proof fn lemma_impl_in_view(imp: ImplDef, paths: PathsView)
    ensures
        spec_impl_is_public_api(imp) == (match imp.self_ty.adt {
            Some(adt) => adt.is_public,
            None => true,
        } && match imp.trait_ {
            Some(t) => t.is_public,
            None => true,
        }),
        impl_entries(imp, paths).len() > 0 <==> spec_impl_is_public_api(imp) && (imp.trait_ is Some
            || exists|v: int| 0 <= v < imp.items@.len() && (#[trigger] imp.items@[v]).is_public),
{
    let items = imp.items@;
    if imp.trait_ is None {
        let shown = shown_items(imp);
        if exists|v: int| 0 <= v < items.len() && (#[trigger] items[v]).is_public {
            let v = choose|v: int| 0 <= v < items.len() && (#[trigger] items[v]).is_public;
            items.lemma_filter_contains(is_public_item(), v);
        }
        if shown.len() > 0 {
            items.lemma_filter_pred(is_public_item(), 0);
            items.lemma_filter_contains_rev(is_public_item(), shown[0]);
            let v = choose|v: int| 0 <= v < items.len() && items[v] == shown[0];
            assert(items[v].is_public);
        }
    }
}

/// The view of a module starts with `pub mod` and the module's path, mapped to the module
/// under that path.
pub proof fn lemma_module_line_first(m: ModuleInfo)
    ensures
        spec_entries(m).len() > 0,
        spec_entries(m)[0] == ("pub mod "@ + spec_module_path_text(m.path), Some(
            (m.nav, spec_module_path_text(m.path)),
        )),
{
}

/// The impls of a module are listed ordered by their header lines, each once, impls with
/// equal headers in the order given.
pub proof fn lemma_impls_in_header_order(m: ModuleInfo, paths: PathsView)
    requires
        m.impls@.len() <= usize::MAX,
    ensures
        sorted_impls(m, paths).len() == m.impls@.len(),
        forall|i: int, j: int|
            0 <= i < j < sorted_impls(m, paths).len() ==> {
                let a = spec_render_impl_header(#[trigger] sorted_impls(m, paths)[i], paths).unwrap();
                let b = spec_render_impl_header(#[trigger] sorted_impls(m, paths)[j], paths).unwrap();
                a == b || chars_lt(a, b)
            },
        forall|v: int| 0 <= v < m.impls@.len() ==> sorted_impls(m, paths).contains(#[trigger] m.impls@[v]),
{
    let keys = crate::api::impl_keys(m.impls@, paths);
    lemma_stable_order(keys);
    let order = stable_order(keys);
    let si = sorted_impls(m, paths);
    assert forall|i: int, j: int| 0 <= i < j < si.len() implies {
        let a = spec_render_impl_header(#[trigger] si[i], paths).unwrap();
        let b = spec_render_impl_header(#[trigger] si[j], paths).unwrap();
        a == b || chars_lt(a, b)
    } by {
        assert(crate::order::entry_lt(keys, order[i] as int, order[j] as int));
        lemma_impl_header_paths(si[i], paths);
        lemma_impl_header_paths(si[j], paths);
    }
    assert forall|v: int| 0 <= v < m.impls@.len() implies si.contains(#[trigger] m.impls@[v]) by {
        assert(crate::order::lists(order, v));
        let i = choose|i: int| 0 <= i < order.len() && order[i] == v;
        assert(si[i] == m.impls@[v]);
    }
}

/// The items an impl shows come ordered by name, unnamed items first, items with equal
/// names in the order given; each shown item once.
pub proof fn lemma_impl_items_in_name_order(imp: ImplDef)
    requires
        imp.items@.len() <= usize::MAX,
    ensures
        ({
            let shown = shown_items(imp);
            let listed = crate::render::arranged(shown, stable_order(crate::api::item_keys(shown)));
            &&& listed.len() == shown.len()
            &&& forall|i: int, j: int|
                0 <= i < j < listed.len() ==> match ((#[trigger] listed[i]).name, (#[trigger] listed[j]).name) {
                    (None, _) => true,
                    (Some(x), Some(y)) => x@ == y@ || chars_lt(x@, y@),
                    (Some(_), None) => false,
                }
            &&& forall|u: int| 0 <= u < shown.len() ==> listed.contains(#[trigger] shown[u])
        }),
{
    let items = imp.items@;
    let shown = shown_items(imp);
    assert(shown.len() <= items.len()) by {
        if imp.trait_ is None {
            items.lemma_filter_len(is_public_item());
        }
    }
    let keys = crate::api::item_keys(shown);
    lemma_stable_order(keys);
    let order = stable_order(keys);
    let listed = crate::render::arranged(shown, order);
    assert forall|i: int, j: int| 0 <= i < j < listed.len() implies match (
        (#[trigger] listed[i]).name,
        (#[trigger] listed[j]).name,
    ) {
        (None, _) => true,
        (Some(x), Some(y)) => x@ == y@ || chars_lt(x@, y@),
        (Some(_), None) => false,
    } by {
        assert(crate::order::entry_lt(keys, order[i] as int, order[j] as int));
    }
    assert forall|u: int| 0 <= u < shown.len() implies listed.contains(#[trigger] shown[u]) by {
        assert(crate::order::lists(order, u));
        let i = choose|i: int| 0 <= i < order.len() && order[i] == u;
        assert(listed[i] == shown[u]);
    }
}

} // verus!
