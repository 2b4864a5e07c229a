//! The public interface of a module as text, with the source item behind each line.
use vstd::prelude::*;
use vstd::utf8::encode_utf8;
use crate::model::{
    AssocItem, Declaration, ImplDef, ModuleDef, ModuleInfo, NavTarget, SymbolKind, TextRange,
};
use crate::order::{key_view, keys_view, stable_order, stable_order_of};
use crate::render::{
    arranged, decl_path, impl_is_public_api, module_path_text, opt_view, render_assoc_item,
    render_impl_header, render_module_def, spec_impl_is_public_api, spec_module_path_text,
    spec_paths, spec_render_assoc_item, spec_render_impl_header, spec_render_module_def,
    join3, AssocItemContainer, PathsView, PublicApiPaths,
};
use crate::laws::lemma_public_api_whole_lines;
use crate::text::chars_of;

verus! {

/// A rendered line and, when it maps back to an item, that item's target and name.
pub type Entry = (Seq<char>, Option<(NavTarget, Seq<char>)>);

/// A mapping, as the byte range of its line, its target and its name.
pub type MappingSpec = (int, int, NavTarget, Seq<char>);

/// The length of `s` in bytes, encoded as UTF-8.
pub open spec fn byte_len(s: Seq<char>) -> int {
    encode_utf8(s).len() as int
}

/// The text and mappings made by adding the lines of `entries` in order: each line
/// followed by `\n`, each mapped line recording the byte range it takes.
pub open spec fn build(entries: Seq<Entry>) -> (Seq<char>, Seq<MappingSpec>)
    decreases entries.len(),
{
    if entries.len() == 0 {
        (Seq::empty(), Seq::empty())
    } else {
        let (text, mappings) = build(entries.drop_last());
        let (line, target) = entries.last();
        let mappings = match target {
            Some((nav, name)) => mappings.push(
                (byte_len(text), byte_len(text) + byte_len(line), nav, name),
            ),
            None => mappings,
        };
        (text + line + seq!['\n'], mappings)
    }
}

/// A line of the public interface mapped to the item it shows.
#[derive(Debug)]
pub struct PublicApiMapping {
    pub range: TextRange,
    pub target: NavTarget,
    pub name: String,
    pub kind: Option<SymbolKind>,
}

/// The public interface of a module: its text, the module's path, and the lines that map
/// back to items.
#[derive(Debug)]
pub struct PublicApi {
    pub text: String,
    pub module_name: String,
    pub mappings: Vec<PublicApiMapping>,
}

/// `m` is the mapping `s` describes; its kind is its target's.
pub open spec fn mapping_matches(m: PublicApiMapping, s: MappingSpec) -> bool {
    &&& m.range@ == (s.0, s.1)
    &&& m.target == s.2
    &&& m.name@ == s.3
    &&& m.kind == s.2.kind
}

/// Each mapping of `ms` is the one that `ss` describes at the same position.
pub open spec fn mappings_match(ms: Seq<PublicApiMapping>, ss: Seq<MappingSpec>) -> bool {
    &&& ms.len() == ss.len()
    &&& forall|i: int| 0 <= i < ms.len() ==> mapping_matches(#[trigger] ms[i], ss[i])
}

/// Appending one more entry appends its line and `\n`, and at most one mapping.
pub proof fn lemma_build_push(entries: Seq<Entry>, e: Entry)
    ensures
        build(entries.push(e)).0 == build(entries).0 + e.0 + seq!['\n'],
        build(entries.push(e)).1 == match e.1 {
            Some((nav, name)) => build(entries).1.push(
                (
                    byte_len(build(entries).0),
                    byte_len(build(entries).0) + byte_len(e.0),
                    nav,
                    name,
                ),
            ),
            None => build(entries).1,
        },
{
    assert(entries.push(e).drop_last() =~= entries);
}

/// The byte length of two texts one after the other is the sum of their byte lengths.
pub proof fn lemma_byte_len_concat(a: Seq<char>, b: Seq<char>)
    ensures
        byte_len(a + b) == byte_len(a) + byte_len(b),
        encode_utf8(a + b) == encode_utf8(a) + encode_utf8(b),
    decreases a.len(),
{
    if a.len() == 0 {
        assert(a + b =~= b);
        assert(encode_utf8(a) =~= Seq::<u8>::empty());
        assert(encode_utf8(a) + encode_utf8(b) =~= encode_utf8(b));
    } else {
        lemma_byte_len_concat(a.drop_first(), b);
        assert((a + b).drop_first() =~= a.drop_first() + b);
        assert((a + b)[0] == a[0]);
    }
}

/// `s` holds no line break.
pub open spec fn has_no_newline(s: Seq<char>) -> bool {
    forall|i: int| 0 <= i < s.len() ==> s[i] != '\n'
}

/// `t` is empty or ends in a line break.
pub open spec fn ends_with_newline(t: Seq<char>) -> bool {
    t.len() == 0 || t.last() == '\n'
}

/// The bytes `start..end` are one whole line of `bytes`: a line break right after them, a
/// line break (or the start of the text) right before them, and none inside.
pub open spec fn covers_whole_line(bytes: Seq<u8>, start: int, end: int) -> bool {
    &&& 0 <= start <= end < bytes.len()
    &&& bytes[end] == 10u8
    &&& (start == 0 || bytes[start - 1] == 10u8)
    &&& forall|k: int| start <= k < end ==> bytes[k] != 10u8
}

/// Each range covers one whole line of the UTF-8 bytes of `text`, in text order.
pub open spec fn whole_line_ranges(text: Seq<char>, ranges: Seq<(int, int)>) -> bool {
    &&& forall|i: int|
        0 <= i < ranges.len() ==> covers_whole_line(
            encode_utf8(text),
            #[trigger] ranges[i].0,
            ranges[i].1,
        )
    &&& forall|i: int, j: int| 0 <= i < j < ranges.len() ==> #[trigger] ranges[i].1 < #[trigger] ranges[j].0
}

/// The byte ranges of mappings.
pub open spec fn mapping_ranges(ms: Seq<PublicApiMapping>) -> Seq<(int, int)> {
    ms.map_values(|m: PublicApiMapping| m.range@)
}

/// The byte ranges of mapping descriptions.
pub open spec fn spec_ranges(ms: Seq<MappingSpec>) -> Seq<(int, int)> {
    ms.map_values(|m: MappingSpec| (m.0, m.1))
}

/// A line break is encoded as the single byte 10.
pub proof fn lemma_newline_bytes()
    ensures
        encode_utf8(seq!['\n']) == seq![10u8],
{
    reveal_with_fuel(encode_utf8, 2);
    assert(seq!['\n'].drop_first() =~= Seq::<char>::empty());
    assert(('\n' as u32) == 10u32);
    assert((10u32 & 0x7F) as u8 == 10u8) by (bit_vector);
    assert(encode_utf8(seq!['\n']) =~= seq![10u8]);
}

/// No byte of the encoding of a character other than a line break is the byte 10.
pub proof fn lemma_char_bytes_not_newline(c: char)
    requires
        c != '\n',
    ensures
        forall|i: int|
            0 <= i < encode_utf8(seq![c]).len() ==> #[trigger] encode_utf8(seq![c])[i] != 10u8,
{
    reveal_with_fuel(encode_utf8, 2);
    assert(seq![c].drop_first() =~= Seq::<char>::empty());
    let v = c as u32;
    if v == 10u32 {
        vstd::utf8::char_u32_cast(c, v);
        vstd::utf8::char_u32_cast('\n', 10u32);
    }
    assert(v != 10u32);
    let lead1 = (v & 0x7F) as u8;
    assert(v <= 0x7F && v != 10u32 ==> (v & 0x7F) as u8 != 10u8) by (bit_vector);
    assert((0xC0u8 | ((v >> 6) & 0x1F) as u8) != 10u8) by (bit_vector);
    assert((0xE0u8 | ((v >> 12) & 0x0F) as u8) != 10u8) by (bit_vector);
    assert((0xF0u8 | ((v >> 18) & 0x7) as u8) != 10u8) by (bit_vector);
    assert((0x80u8 | (v & 0x3F) as u8) != 10u8) by (bit_vector);
    assert((0x80u8 | ((v >> 6) & 0x3F) as u8) != 10u8) by (bit_vector);
    assert((0x80u8 | ((v >> 12) & 0x3F) as u8) != 10u8) by (bit_vector);
    assert(encode_utf8(seq![c]) =~= vstd::utf8::encode_scalar(v));
}

/// A text without line breaks encodes to bytes without the byte 10.
pub proof fn lemma_no_newline_bytes(s: Seq<char>)
    requires
        has_no_newline(s),
    ensures
        forall|i: int| 0 <= i < encode_utf8(s).len() ==> #[trigger] encode_utf8(s)[i] != 10u8,
    decreases s.len(),
{
    if s.len() > 0 {
        let first = seq![s[0]];
        let rest = s.drop_first();
        assert(s =~= first + rest);
        lemma_byte_len_concat(first, rest);
        assert(has_no_newline(rest)) by {
            assert forall|i: int| 0 <= i < rest.len() implies rest[i] != '\n' by {
                assert(rest[i] == s[i + 1]);
            }
        }
        lemma_no_newline_bytes(rest);
        lemma_char_bytes_not_newline(s[0]);
        let b = encode_utf8(s);
        assert forall|i: int| 0 <= i < b.len() implies #[trigger] b[i] != 10u8 by {
            let bf = encode_utf8(first);
            if i < bf.len() {
                assert(b[i] == bf[i]);
            } else {
                assert(b[i] == encode_utf8(rest)[i - bf.len()]);
            }
        }
    }
}

/// Appending a line without line breaks and a line break to a text that ends in one keeps
/// every range on a whole line, and the new line's range covers a whole line too.
pub proof fn lemma_append_line(t: Seq<char>, line: Seq<char>, ranges: Seq<(int, int)>)
    requires
        whole_line_ranges(t, ranges),
        ends_with_newline(t),
        has_no_newline(line),
    ensures
        whole_line_ranges(t + line + seq!['\n'], ranges),
        whole_line_ranges(
            t + line + seq!['\n'],
            ranges.push((byte_len(t), byte_len(t) + byte_len(line))),
        ),
        ends_with_newline(t + line + seq!['\n']),
{
    let t2 = t + line + seq!['\n'];
    let bt = encode_utf8(t);
    let bl = encode_utf8(line);
    lemma_byte_len_concat(t, line);
    lemma_byte_len_concat(t + line, seq!['\n']);
    lemma_newline_bytes();
    let b2 = encode_utf8(t2);
    assert(b2 =~= bt + bl + seq![10u8]);
    lemma_no_newline_bytes(line);
    if t.len() > 0 {
        assert(t =~= t.drop_last() + seq!['\n']);
        lemma_byte_len_concat(t.drop_last(), seq!['\n']);
        assert(bt.last() == 10u8);
    }
    assert forall|i: int| 0 <= i < ranges.len() implies covers_whole_line(
        b2,
        #[trigger] ranges[i].0,
        ranges[i].1,
    ) by {
        assert(covers_whole_line(bt, ranges[i].0, ranges[i].1));
        assert forall|k: int| ranges[i].0 <= k < ranges[i].1 implies b2[k] != 10u8 by {
            assert(b2[k] == bt[k]);
        }
        assert(b2[ranges[i].1] == bt[ranges[i].1]);
        if ranges[i].0 > 0 {
            assert(b2[ranges[i].0 - 1] == bt[ranges[i].0 - 1]);
        }
    }
    let r2 = ranges.push((byte_len(t), byte_len(t) + byte_len(line)));
    assert forall|i: int| 0 <= i < r2.len() implies covers_whole_line(
        b2,
        #[trigger] r2[i].0,
        r2[i].1,
    ) by {
        if i < ranges.len() {
            assert(r2[i] == ranges[i]);
        } else {
            assert forall|k: int| r2[i].0 <= k < r2[i].1 implies b2[k] != 10u8 by {
                assert(b2[k] == bl[k - bt.len()]);
            }
            if r2[i].0 > 0 {
                assert(b2[r2[i].0 - 1] == bt[bt.len() - 1]);
            }
        }
    }
    assert forall|i: int, j: int| 0 <= i < j < r2.len() implies #[trigger] r2[i].1 < #[trigger] r2[j].0 by {
        assert(r2[i] == ranges[i]);
        if j < ranges.len() {
            assert(r2[j] == ranges[j]);
        } else {
            assert(covers_whole_line(bt, ranges[i].0, ranges[i].1));
        }
    }
}

/// `text` is empty or ends in a line break, each mapping covers exactly one whole line of
/// the text's bytes, the mappings come in text order, and each mapping's kind is its
/// target's.
pub open spec fn maps_whole_lines(text: Seq<char>, ms: Seq<PublicApiMapping>) -> bool {
    &&& whole_line_ranges(text, mapping_ranges(ms))
    &&& ends_with_newline(text)
    &&& forall|i: int| 0 <= i < ms.len() ==> (#[trigger] ms[i]).kind == ms[i].target.kind
}

/// Collects the text and the mappings of the public interface, line by line.
pub struct PublicApiBuilder {
    pub text: String,
    pub mappings: Vec<PublicApiMapping>,
}

impl PublicApiBuilder {
    /// An empty text without mappings.
    pub fn new() -> (r: Self)
        ensures
            r.text@ == Seq::<char>::empty(),
            r.mappings@.len() == 0,
            maps_whole_lines(r.text@, r.mappings@),
    {
        let r = PublicApiBuilder { text: String::new(), mappings: Vec::new() };
        assert(mapping_ranges(r.mappings@) =~= Seq::<(int, int)>::empty());
        r
    }

    /// Appends `line` and `\n`. Pushing a line without a line break keeps every mapping on
    /// its whole line.
    pub fn push_line(&mut self, line: String)
        ensures
            final(self).text@ == old(self).text@ + line@ + seq!['\n'],
            final(self).mappings@ == old(self).mappings@,
            maps_whole_lines(old(self).text@, old(self).mappings@) && has_no_newline(line@) ==> maps_whole_lines(final(self).text@, final(self).mappings@),
    {
        self.text.append(line.as_str());
        self.text.append("\n");
        proof {
            reveal_strlit("\n");
        }
        assert(self.text@ =~= old(self).text@ + line@ + seq!['\n']);
        proof {
            if whole_line_ranges(old(self).text@, mapping_ranges(old(self).mappings@))
                && ends_with_newline(old(self).text@) && has_no_newline(line@) {
                lemma_append_line(old(self).text@, line@, mapping_ranges(old(self).mappings@));
            }
        }
    }

    /// Appends `line` and `\n`, and maps the bytes of `line` to `target` under `name`.
    /// Pushing a line without a line break keeps every mapping, the new one too, on its
    /// whole line.
    pub fn push_mapped_line(&mut self, line: String, target: NavTarget, name: String)
        requires
            byte_len(old(self).text@) + byte_len(line@) <= u32::MAX,
        ensures
            final(self).text@ == old(self).text@ + line@ + seq!['\n'],
            final(self).mappings@.len() == old(self).mappings@.len() + 1,
            forall|i: int|
                0 <= i < old(self).mappings@.len() ==> final(self).mappings@[i] == old(
                    self,
                ).mappings@[i],
            mapping_matches(
                final(self).mappings@.last(),
                (
                    byte_len(old(self).text@),
                    byte_len(old(self).text@) + byte_len(line@),
                    target,
                    name@,
                ),
            ),
            maps_whole_lines(old(self).text@, old(self).mappings@) && has_no_newline(line@) ==> maps_whole_lines(final(self).text@, final(self).mappings@),
    {
        let start = self.text.as_str().len() as u32;
        let len = line.as_str().len() as u32;
        self.text.append(line.as_str());
        self.text.append("\n");
        proof {
            reveal_strlit("\n");
        }
        assert(self.text@ =~= old(self).text@ + line@ + seq!['\n']);
        let kind = target.kind;
        self.mappings.push(PublicApiMapping { range: TextRange::at(start, len), kind, target, name });
        proof {
            let old_ranges = mapping_ranges(old(self).mappings@);
            assert(mapping_ranges(self.mappings@) =~= old_ranges.push(
                (byte_len(old(self).text@), byte_len(old(self).text@) + byte_len(line@)),
            ));
            if maps_whole_lines(old(self).text@, old(self).mappings@) && has_no_newline(line@) {
                lemma_append_line(old(self).text@, line@, old_ranges);
                assert forall|i: int| 0 <= i < self.mappings@.len() implies (
                #[trigger] self.mappings@[i]).kind == self.mappings@[i].target.kind by {
                    if i < old(self).mappings@.len() {
                        assert(self.mappings@[i] == old(self).mappings@[i]);
                    }
                }
            }
        }
    }
}


/// The entry of a line shown for an item with the navigation target `nav`: mapped to the
/// target under the target's name when there is one.
pub open spec fn nav_entry(line: Seq<char>, nav: Option<NavTarget>) -> Entry {
    (
        line,
        match nav {
            Some(n) => Some((n, n.name@)),
            None => None,
        },
    )
}

/// The entries of an associated item: its line, when it renders.
pub open spec fn item_entries(
    item: AssocItem,
    container: AssocItemContainer,
    paths: PathsView,
) -> Seq<Entry> {
    match spec_render_assoc_item(item, container, paths) {
        Some(line) => seq![nav_entry(line, item.nav)],
        None => Seq::empty(),
    }
}

/// `item_entries` of the items of the trait `t`.
pub open spec fn trait_item_entries_fn(t: crate::model::TraitItem, paths: PathsView) -> spec_fn(
    AssocItem,
) -> Seq<Entry> {
    |it: AssocItem| item_entries(it, AssocItemContainer::Trait(&t), paths)
}

/// `item_entries` of the items of the impl `imp`.
pub open spec fn impl_item_entries_fn(imp: ImplDef, paths: PathsView) -> spec_fn(AssocItem) -> Seq<
    Entry,
> {
    |it: AssocItem| item_entries(it, AssocItemContainer::Impl(&imp), paths)
}

/// The path a declaration is shown under.
pub open spec fn shown_path(d: Declaration, module_name: Seq<char>) -> Seq<char> {
    match d.def {
        ModuleDef::Module(m) => spec_module_path_text(m),
        _ => decl_path(module_name, d),
    }
}

/// The entries of a declaration: its line, when it renders, then for a trait the lines of
/// its items.
pub open spec fn decl_entries(d: Declaration, module_name: Seq<char>, paths: PathsView) -> Seq<
    Entry,
> {
    let head = match spec_render_module_def(d.def, shown_path(d, module_name)) {
        Some(line) => seq![nav_entry(line, d.nav)],
        None => Seq::empty(),
    };
    let items = match d.def {
        ModuleDef::Trait(t) => t.items@.flat_map(trait_item_entries_fn(t, paths)),
        _ => Seq::empty(),
    };
    head + items
}

/// `decl_entries` in the module named `module_name`.
pub open spec fn decl_entries_fn(module_name: Seq<char>, paths: PathsView) -> spec_fn(
    Declaration,
) -> Seq<Entry> {
    |d: Declaration| decl_entries(d, module_name, paths)
}

/// The declarations are ordered by name.
pub open spec fn decl_keys(decls: Seq<Declaration>) -> Seq<Option<Seq<char>>> {
    decls.map_values(|d: Declaration| Some(d.name@))
}

/// The declarations of a module, ordered by name, equal names in the order given.
pub open spec fn sorted_decls(m: ModuleInfo) -> Seq<Declaration> {
    arranged(m.declarations@, stable_order(decl_keys(m.declarations@)))
}

/// The impls are ordered by their header lines.
pub open spec fn impl_keys(impls: Seq<ImplDef>, paths: PathsView) -> Seq<Option<Seq<char>>> {
    impls.map_values(|imp: ImplDef| spec_render_impl_header(imp, paths))
}

/// The impls of a module, ordered by their header lines, equal headers in the order given.
pub open spec fn sorted_impls(m: ModuleInfo, paths: PathsView) -> Seq<ImplDef> {
    arranged(m.impls@, stable_order(impl_keys(m.impls@, paths)))
}

/// Public items are shown.
pub open spec fn is_public_item() -> spec_fn(AssocItem) -> bool {
    |it: AssocItem| it.is_public
}

/// The items an impl shows: all items of a trait impl, the public items of another impl.
pub open spec fn shown_items(imp: ImplDef) -> Seq<AssocItem> {
    if imp.trait_ is Some {
        imp.items@
    } else {
        imp.items@.filter(is_public_item())
    }
}

/// The items of an impl are ordered by name, an unnamed item first.
pub open spec fn item_keys(items: Seq<AssocItem>) -> Seq<Option<Seq<char>>> {
    items.map_values(|it: AssocItem| opt_view(it.name))
}

/// The entries of an impl: none when it is not public, or shows no item and implements no
/// trait; else its header line, mapped to the impl under the name `impl`, then the lines
/// of the items it shows, ordered by name.
pub open spec fn impl_entries(imp: ImplDef, paths: PathsView) -> Seq<Entry> {
    if !spec_impl_is_public_api(imp) {
        Seq::empty()
    } else {
        let items = shown_items(imp);
        if items.len() == 0 && imp.trait_ is None {
            Seq::empty()
        } else {
            match spec_render_impl_header(imp, paths) {
                None => Seq::empty(),
                Some(header) => seq![(header, impl_target(imp.nav))] + arranged(items, stable_order(item_keys(items))).flat_map(
                    impl_item_entries_fn(imp, paths),
                ),
            }
        }
    }
}

/// The target of an impl's header line: the impl, under the name `impl`.
pub open spec fn impl_target(nav: Option<NavTarget>) -> Option<(NavTarget, Seq<char>)> {
    match nav {
        Some(n) => Some((n, "impl"@)),
        None => None,
    }
}

/// `impl_entries` with the paths `paths`.
pub open spec fn impl_entries_fn(paths: PathsView) -> spec_fn(ImplDef) -> Seq<Entry> {
    |imp: ImplDef| impl_entries(imp, paths)
}

/// The entries of the public interface of a module: the module's own line, mapped to it
/// under its path; the entries of its declarations ordered by name; the entries of its
/// impls ordered by header line.
pub open spec fn spec_entries(m: ModuleInfo) -> Seq<Entry> {
    let module_name = spec_module_path_text(m.path);
    let decls = sorted_decls(m);
    let paths = spec_paths(module_name, decls);
    seq![("pub mod "@ + module_name, Some((m.nav, module_name)))] + decls.flat_map(
        decl_entries_fn(module_name, paths),
    ) + sorted_impls(m, paths).flat_map(impl_entries_fn(paths))
}

/// A rendered line and, when it maps back to an item, that item's target and name.
pub struct ApiLine {
    pub line: String,
    pub target: Option<(NavTarget, String)>,
}

/// The entry an `ApiLine` holds.
pub open spec fn line_view(l: ApiLine) -> Entry {
    (
        l.line@,
        match l.target {
            Some((n, s)) => Some((n, s@)),
            None => None,
        },
    )
}

/// The entries of a sequence of lines.
pub open spec fn lines_view(ls: Seq<ApiLine>) -> Seq<Entry> {
    ls.map_values(|l: ApiLine| line_view(l))
}

fn nav_line(line: String, nav: &Option<NavTarget>) -> (r: ApiLine)
    ensures
        line_view(r) == nav_entry(line@, *nav),
{
    match nav {
        Some(n) => {
            let t = n.duplicate();
            let name = n.name.clone();
            ApiLine { line, target: Some((t, name)) }
        },
        None => ApiLine { line, target: None },
    }
}

fn push_line_of(lines: &mut Vec<ApiLine>, l: ApiLine)
    ensures
        lines_view(final(lines)@) == lines_view(old(lines)@).push(line_view(l)),
{
    lines.push(l);
    assert(lines_view(lines@) =~= lines_view(old(lines)@).push(line_view(l)));
}

/// Adds the entries of a declaration of the module named `module_name`.
fn collect_decl(
    lines: &mut Vec<ApiLine>,
    d: &Declaration,
    module_name: &String,
    paths: &PublicApiPaths,
)
    ensures
        lines_view(final(lines)@) == lines_view(old(lines)@) + decl_entries(
            *d,
            module_name@,
            paths@,
        ),
{
    let path = match &d.def {
        ModuleDef::Module(m) => module_path_text(m),
        _ => join3(module_name.as_str(), "::", d.name.as_str()),
    };
    assert(path@ == shown_path(*d, module_name@));
    let ghost head: Seq<Entry> = match spec_render_module_def(d.def, path@) {
        Some(line) => seq![nav_entry(line, d.nav)],
        None => Seq::empty(),
    };
    match render_module_def(&d.def, &path) {
        Some(line) => {
            push_line_of(lines, nav_line(line, &d.nav));
        },
        None => {},
    }
    assert(lines_view(lines@) =~= lines_view(old(lines)@) + head);
    match &d.def {
        ModuleDef::Trait(t) => {
            let ghost f = trait_item_entries_fn(*t, paths@);
            let mut j: usize = 0;
            while j < t.items.len()
                invariant
                    j <= t.items@.len(),
                    f == trait_item_entries_fn(*t, paths@),
                    lines_view(lines@) == lines_view(old(lines)@) + head + t.items@.take(
                        j as int,
                    ).flat_map(f),
                decreases t.items@.len() - j,
            {
                let it = &t.items[j];
                let ghost before = lines_view(lines@);
                match render_assoc_item(it, AssocItemContainer::Trait(t), paths) {
                    Some(line) => {
                        push_line_of(lines, nav_line(line, &it.nav));
                    },
                    None => {},
                }
                proof {
                    assert(t.items@.take(j + 1) =~= t.items@.take(j as int).push(*it));
                    t.items@.take(j as int).lemma_flat_map_push(f, *it);
                    assert(lines_view(lines@) =~= before + f(*it));
                }
                j = j + 1;
            }
            assert(t.items@.take(j as int) =~= t.items@);
        },
        _ => {},
    }
    assert(lines_view(lines@) =~= lines_view(old(lines)@) + decl_entries(*d, module_name@, paths@));
}

/// Adds the entries of an impl.
#[verifier::spinoff_prover]
#[verifier::rlimit(40)]
fn collect_impl(lines: &mut Vec<ApiLine>, imp: &ImplDef, paths: &PublicApiPaths)
    ensures
        lines_view(final(lines)@) == lines_view(old(lines)@) + impl_entries(*imp, paths@),
{
    if !impl_is_public_api(imp) {
        assert(lines_view(lines@) =~= lines_view(old(lines)@) + impl_entries(*imp, paths@));
        return;
    }
    let is_trait_impl = imp.trait_.is_some();
    let ghost items = imp.items@;
    let mut kept: Vec<usize> = Vec::new();
    let mut j: usize = 0;
    while j < imp.items.len()
        invariant
            j <= items.len(),
            items == imp.items@,
            is_trait_impl == (imp.trait_ is Some),
            forall|q: int| 0 <= q < kept@.len() ==> #[trigger] kept@[q] < j,
            arranged(items, kept@) == (if is_trait_impl {
                items.take(j as int)
            } else {
                items.take(j as int).filter(is_public_item())
            }),
        decreases items.len() - j,
    {
        proof {
            assert(items.take(j + 1).drop_last() =~= items.take(j as int));
        }
        let ghost prev = arranged(items, kept@);
        if is_trait_impl || imp.items[j].is_public {
            kept.push(j);
            assert(arranged(items, kept@) =~= prev.push(items[j as int]));
        } else {
            assert(arranged(items, kept@) =~= prev);
        }
        proof {
            let t1 = items.take(j + 1);
            assert(t1.last() == items[j as int]);
            assert(t1.drop_last() =~= items.take(j as int));
            if is_trait_impl {
                assert(t1 =~= items.take(j as int).push(items[j as int]));
            } else {
                assert(is_public_item()(items[j as int]) == items[j as int].is_public);
                assert(t1 =~= items.take(j as int).push(items[j as int]));
                items.take(j as int).lemma_filter_push(items[j as int], is_public_item());
            }
        }
        j = j + 1;
    }
    let ghost shown = shown_items(*imp);
    assert(items.take(j as int) =~= items);
    assert(arranged(items, kept@) == shown);
    if kept.len() == 0 && !is_trait_impl {
        assert(lines_view(lines@) =~= lines_view(old(lines)@) + impl_entries(*imp, paths@));
        return;
    }
    let header = match render_impl_header(imp, paths) {
        Some(h) => h,
        None => {
            assert(lines_view(lines@) =~= lines_view(old(lines)@) + impl_entries(*imp, paths@));
            return;
        },
    };
    let target = match &imp.nav {
        Some(n) => Some((n.duplicate(), String::from_str("impl"))),
        None => None,
    };
    let ghost head: Seq<Entry> = seq![(header@, impl_target(imp.nav))];
    push_line_of(lines, ApiLine { line: header, target });
    assert(lines_view(lines@) =~= lines_view(old(lines)@) + head);
    let mut keys: Vec<Option<Vec<char>>> = Vec::new();
    let mut q: usize = 0;
    while q < kept.len()
        invariant
            q <= kept@.len(),
            items == imp.items@,
            shown == arranged(items, kept@),
            forall|i: int| 0 <= i < kept@.len() ==> #[trigger] kept@[i] < items.len(),
            keys_view(keys@) == item_keys(shown).take(q as int),
        decreases kept@.len() - q,
    {
        let it = &imp.items[kept[q]];
        let key = match &it.name {
            Some(n) => Some(chars_of(n.as_str())),
            None => None,
        };
        proof {
            assert(key_view(key) == opt_view(it.name));
            assert(keys_view(keys@.push(key)) =~= keys_view(keys@).push(key_view(key)));
            assert(item_keys(shown).take(q + 1) =~= item_keys(shown).take(q as int).push(
                opt_view(shown[q as int].name),
            ));
        }
        keys.push(key);
        q = q + 1;
    }
    assert(item_keys(shown).take(q as int) =~= item_keys(shown));
    let order = stable_order_of(&keys);
    let ghost sorted = arranged(shown, order@);
    let ghost f = impl_item_entries_fn(*imp, paths@);
    let mut q: usize = 0;
    while q < order.len()
        invariant
            q <= order@.len(),
            items == imp.items@,
            shown == arranged(items, kept@),
            forall|i: int| 0 <= i < kept@.len() ==> #[trigger] kept@[i] < items.len(),
            order@.len() == shown.len(),
            forall|i: int| 0 <= i < order@.len() ==> #[trigger] order@[i] < shown.len(),
            sorted == arranged(shown, order@),
            f == impl_item_entries_fn(*imp, paths@),
            lines_view(lines@) == lines_view(old(lines)@) + head + sorted.take(q as int).flat_map(
                f,
            ),
        decreases order@.len() - q,
    {
        let it = &imp.items[kept[order[q]]];
        assert(*it == sorted[q as int]);
        let ghost before = lines_view(lines@);
        match render_assoc_item(it, AssocItemContainer::Impl(imp), paths) {
            Some(line) => {
                push_line_of(lines, nav_line(line, &it.nav));
            },
            None => {},
        }
        proof {
            assert(sorted.take(q + 1) =~= sorted.take(q as int).push(*it));
            sorted.take(q as int).lemma_flat_map_push(f, *it);
            assert(lines_view(lines@) =~= before + f(*it));
        }
        q = q + 1;
    }
    assert(sorted.take(q as int) =~= sorted);
    assert(lines_view(lines@) =~= lines_view(old(lines)@) + impl_entries(*imp, paths@));
}

/// The lines of the public interface of `m`, and the path of `m`.
fn collect_lines(m: &ModuleInfo) -> (r: (Vec<ApiLine>, String))
    ensures
        lines_view(r.0@) == spec_entries(*m),
        r.1@ == spec_module_path_text(m.path),
{
    let module_name = module_path_text(&m.path);
    let mut lines: Vec<ApiLine> = Vec::new();
    let mut module_line = String::from_str("pub mod ");
    module_line.append(module_name.as_str());
    let target = Some((m.nav.duplicate(), module_name.clone()));
    push_line_of(&mut lines, ApiLine { line: module_line, target });
    let ghost head = lines_view(lines@);
    assert(head =~= seq![("pub mod "@ + module_name@, Some((m.nav, module_name@)))]);

    let decls = &m.declarations;
    let mut keys: Vec<Option<Vec<char>>> = Vec::new();
    let mut i: usize = 0;
    while i < decls.len()
        invariant
            i <= decls@.len(),
            keys_view(keys@) == decl_keys(decls@).take(i as int),
        decreases decls@.len() - i,
    {
        let key = Some(chars_of(decls[i].name.as_str()));
        proof {
            assert(keys_view(keys@.push(key)) =~= keys_view(keys@).push(key_view(key)));
            assert(decl_keys(decls@).take(i + 1) =~= decl_keys(decls@).take(i as int).push(
                Some(decls@[i as int].name@),
            ));
        }
        keys.push(key);
        i = i + 1;
    }
    assert(decl_keys(decls@).take(i as int) =~= decl_keys(decls@));
    let order = stable_order_of(&keys);
    let paths = PublicApiPaths::new(&module_name, decls, &order);
    let ghost sd = sorted_decls(*m);
    assert(sd == arranged(decls@, order@));
    let ghost f = decl_entries_fn(module_name@, paths@);
    let mut k: usize = 0;
    while k < order.len()
        invariant
            k <= order@.len(),
            order@.len() == decls@.len(),
            forall|q: int| 0 <= q < order@.len() ==> #[trigger] order@[q] < decls@.len(),
            sd == arranged(decls@, order@),
            f == decl_entries_fn(module_name@, paths@),
            lines_view(lines@) == head + sd.take(k as int).flat_map(f),
        decreases order@.len() - k,
    {
        let d = &decls[order[k]];
        let ghost before = lines_view(lines@);
        collect_decl(&mut lines, d, &module_name, &paths);
        proof {
            assert(sd.take(k + 1) =~= sd.take(k as int).push(*d));
            sd.take(k as int).lemma_flat_map_push(f, *d);
            assert(lines_view(lines@) =~= before + f(*d));
        }
        k = k + 1;
    }
    assert(sd.take(k as int) =~= sd);
    let ghost with_decls = lines_view(lines@);

    let impls = &m.impls;
    let mut ikeys: Vec<Option<Vec<char>>> = Vec::new();
    let mut i: usize = 0;
    while i < impls.len()
        invariant
            i <= impls@.len(),
            keys_view(ikeys@) == impl_keys(impls@, paths@).take(i as int),
        decreases impls@.len() - i,
    {
        let key = match render_impl_header(&impls[i], &paths) {
            Some(h) => Some(chars_of(h.as_str())),
            None => None,
        };
        proof {
            assert(keys_view(ikeys@.push(key)) =~= keys_view(ikeys@).push(key_view(key)));
            assert(impl_keys(impls@, paths@).take(i + 1) =~= impl_keys(impls@, paths@).take(
                i as int,
            ).push(spec_render_impl_header(impls@[i as int], paths@)));
        }
        ikeys.push(key);
        i = i + 1;
    }
    assert(impl_keys(impls@, paths@).take(i as int) =~= impl_keys(impls@, paths@));
    let order2 = stable_order_of(&ikeys);
    let ghost si = sorted_impls(*m, paths@);
    assert(si == arranged(impls@, order2@));
    let ghost g = impl_entries_fn(paths@);
    let mut k: usize = 0;
    while k < order2.len()
        invariant
            k <= order2@.len(),
            order2@.len() == impls@.len(),
            forall|q: int| 0 <= q < order2@.len() ==> #[trigger] order2@[q] < impls@.len(),
            si == arranged(impls@, order2@),
            g == impl_entries_fn(paths@),
            lines_view(lines@) == with_decls + si.take(k as int).flat_map(g),
        decreases order2@.len() - k,
    {
        let imp = &impls[order2[k]];
        let ghost before = lines_view(lines@);
        collect_impl(&mut lines, imp, &paths);
        proof {
            assert(si.take(k + 1) =~= si.take(k as int).push(*imp));
            si.take(k as int).lemma_flat_map_push(g, *imp);
            assert(lines_view(lines@) =~= before + g(*imp));
        }
        k = k + 1;
    }
    assert(si.take(k as int) =~= si);
    assert(lines_view(lines@) =~= spec_entries(*m));
    (lines, module_name)
}

/// `r` is the public interface of `m`: the text built from its entries, its path, and the
/// mappings of its mapped lines.
pub open spec fn is_public_api_of(m: ModuleInfo, r: PublicApi) -> bool {
    &&& r.text@ == build(spec_entries(m)).0
    &&& r.module_name@ == spec_module_path_text(m.path)
    &&& mappings_match(r.mappings@, build(spec_entries(m)).1)
}

/// The text shown when no module is found.
pub open spec fn no_module_text() -> Seq<char> {
    "// No Rust module found for this file.\n"@
}

/// A newline takes one byte.
pub proof fn lemma_newline_byte_len()
    ensures
        byte_len(seq!['\n']) == 1,
{
    reveal_with_fuel(encode_utf8, 2);
}

/// The bytes the text built from the entries takes: each line's bytes and one more.
proof fn lemma_build_text_len_push(entries: Seq<Entry>, e: Entry)
    ensures
        byte_len(build(entries.push(e)).0) == byte_len(build(entries).0) + byte_len(e.0) + 1,
{
    lemma_build_push(entries, e);
    lemma_byte_len_concat(build(entries).0, e.0);
    lemma_byte_len_concat(build(entries).0 + e.0, seq!['\n']);
    lemma_newline_byte_len();
}

/// The number of bytes `c` takes in UTF-8.
fn char_byte_len(c: char) -> (n: u64)
    ensures
        n == encode_utf8(seq![c]).len(),
        1 <= n <= 4,
{
    proof {
        reveal_with_fuel(encode_utf8, 2);
        vstd::utf8::char_is_scalar(c);
        assert(seq![c].drop_first() =~= Seq::<char>::empty());
    }
    let v = c as u32;
    if v <= 0x7F {
        1
    } else if v <= 0x7FF {
        2
    } else if v <= 0xFFFF {
        3
    } else {
        4
    }
}

/// `total` plus the bytes of `line`, when that sum stays within `u32::MAX`.
fn add_line_bytes(line: &String, total: u64) -> (r: Option<u64>)
    requires
        total <= u32::MAX,
    ensures
        match r {
            Some(t) => t == total + byte_len(line@) && t <= u32::MAX,
            None => total + byte_len(line@) > u32::MAX,
        },
{
    let cs = crate::text::chars_of(line.as_str());
    let mut t = total;
    let mut k: usize = 0;
    assert(cs@.take(0) =~= Seq::<char>::empty());
    while k < cs.len()
        invariant
            k <= cs@.len(),
            cs@ == line@,
            t == total + byte_len(cs@.take(k as int)),
            t <= u32::MAX,
        decreases cs@.len() - k,
    {
        let w = char_byte_len(cs[k]);
        proof {
            assert(cs@.take(k + 1) =~= cs@.take(k as int) + seq![cs@[k as int]]);
            lemma_byte_len_concat(cs@.take(k as int), seq![cs@[k as int]]);
        }
        t = t + w;
        if t > 0xFFFF_FFFF {
            proof {
                assert(cs@ =~= cs@.take(k + 1) + cs@.skip(k + 1));
                lemma_byte_len_concat(cs@.take(k + 1), cs@.skip(k + 1));
            }
            return None;
        }
        k = k + 1;
    }
    assert(cs@.take(k as int) =~= cs@);
    Some(t)
}

/// Each mapped line of `entries` ends within the first `u32::MAX` bytes of the text: the
/// bytes of the lines before it, each with its `\n`, and its own bytes stay within that
/// bound. Lines without a mapping may run past it.
pub open spec fn mapped_lines_fit(entries: Seq<Entry>) -> bool {
    forall|k: int|
        0 <= k < entries.len() && (#[trigger] entries[k]).1 is Some ==> byte_len(
            build(entries.take(k)).0,
        ) + byte_len(entries[k].0) <= u32::MAX
}

/// Whether each mapped line of `lines` ends within the first `u32::MAX` bytes of the text.
fn mapped_lines_fit_in(lines: &Vec<ApiLine>) -> (b: bool)
    ensures
        b == mapped_lines_fit(lines_view(lines@)),
{
    let ghost es = lines_view(lines@);
    let mut total: u64 = 0;
    let mut over = false;
    let mut k: usize = 0;
    while k < lines.len()
        invariant
            k <= lines@.len(),
            es == lines_view(lines@),
            forall|j: int|
                0 <= j < k && (#[trigger] es[j]).1 is Some ==> byte_len(build(es.take(j)).0)
                    + byte_len(es[j].0) <= u32::MAX,
            !over ==> total == byte_len(build(es.take(k as int)).0) && total <= u32::MAX,
            over ==> byte_len(build(es.take(k as int)).0) > u32::MAX,
        decreases lines@.len() - k,
    {
        let mapped = lines[k].target.is_some();
        proof {
            assert(es[k as int] == line_view(lines@[k as int]));
            assert(es.take(k + 1) =~= es.take(k as int).push(es[k as int]));
            lemma_build_text_len_push(es.take(k as int), es[k as int]);
        }
        if over {
            if mapped {
                return false;
            }
        } else {
            match add_line_bytes(&lines[k].line, total) {
                Some(t) => {
                    if t < 0xFFFF_FFFF {
                        total = t + 1;
                    } else {
                        over = true;
                    }
                },
                None => {
                    if mapped {
                        return false;
                    }
                    over = true;
                },
            }
        }
        k = k + 1;
    }
    true
}

/// The public interface built from its lines: their text, each line followed by `\n`, and
/// a mapping for each line that shows an item.
fn assemble(lines: &Vec<ApiLine>, module_name: String) -> (r: PublicApi)
    requires
        mapped_lines_fit(lines_view(lines@)),
    ensures
        r.text@ == build(lines_view(lines@)).0,
        r.module_name@ == module_name@,
        mappings_match(r.mappings@, build(lines_view(lines@)).1),
{
    let ghost es = lines_view(lines@);
    let mut builder = PublicApiBuilder::new();
    let mut k: usize = 0;
    assert(es.take(0) =~= Seq::<Entry>::empty());
    while k < lines.len()
        invariant
            k <= lines@.len(),
            es == lines_view(lines@),
            mapped_lines_fit(es),
            builder.text@ == build(es.take(k as int)).0,
            mappings_match(builder.mappings@, build(es.take(k as int)).1),
        decreases lines@.len() - k,
    {
        let l = &lines[k];
        proof {
            assert(es.take(k + 1) =~= es.take(k as int).push(es[k as int]));
            lemma_build_push(es.take(k as int), es[k as int]);
            assert(es[k as int] == line_view(*l));
        }
        let ghost old_mappings = builder.mappings@;
        match &l.target {
            Some((n, name)) => {
                builder.push_mapped_line(l.line.clone(), n.duplicate(), name.clone());
            },
            None => {
                builder.push_line(l.line.clone());
            },
        }
        proof {
            let ms = build(es.take(k + 1)).1;
            assert forall|i: int| 0 <= i < builder.mappings@.len() implies mapping_matches(
                #[trigger] builder.mappings@[i],
                ms[i],
            ) by {
                if i < old_mappings.len() {
                    assert(builder.mappings@[i] == old_mappings[i]);
                }
            }
        }
        k = k + 1;
    }
    assert(es.take(k as int) =~= es);
    PublicApi { text: builder.text, module_name, mappings: builder.mappings }
}

/// The interface shown when no module is found.
fn no_module() -> (r: PublicApi)
    ensures
        r.text@ == no_module_text(),
        r.module_name@ == Seq::<char>::empty(),
        r.mappings@.len() == 0,
        maps_whole_lines(r.text@, r.mappings@),
{
    let r = PublicApi {
        text: String::from_str("// No Rust module found for this file.\n"),
        module_name: String::new(),
        mappings: Vec::new(),
    };
    proof {
        reveal_strlit("// No Rust module found for this file.\n");
        assert(mapping_ranges(r.mappings@) =~= Seq::<(int, int)>::empty());
    }
    r
}

/// The public interface of a module: the text of its lines, each followed by `\n`; the
/// module's path; and, for each line that shows an item, the byte range of the line, the
/// item's target and its name. Without a module, a note and nothing else.
pub fn public_api(module: Option<&ModuleInfo>) -> (r: PublicApi)
    requires
        match module {
            Some(m) => mapped_lines_fit(spec_entries(*m)),
            None => true,
        },
    ensures
        match module {
            Some(m) => {
                &&& is_public_api_of(*m, r)
                &&& has_no_newline(spec_module_path_text(m.path)) ==> maps_whole_lines(
                    r.text@,
                    r.mappings@,
                )
            },
            None => {
                &&& r.text@ == no_module_text()
                &&& r.module_name@ == Seq::<char>::empty()
                &&& r.mappings@.len() == 0
                &&& maps_whole_lines(r.text@, r.mappings@)
            },
        },
{
    match module {
        None => no_module(),
        Some(m) => {
            let (lines, module_name) = collect_lines(m);
            let r = assemble(&lines, module_name);
            proof {
                if has_no_newline(spec_module_path_text(m.path)) {
                    lemma_public_api_whole_lines(*m, r);
                }
            }
            r
        },
    }
}

/// `public_api` where each mapped line ends within the first `u32::MAX` bytes of the text,
/// and none where one does not (its byte range could not be recorded).
pub fn public_api_checked(module: Option<&ModuleInfo>) -> (r: Option<PublicApi>)
    ensures
        match module {
            Some(m) => {
                &&& r is Some <==> mapped_lines_fit(spec_entries(*m))
                &&& r matches Some(api) ==> is_public_api_of(*m, api)
                &&& r matches Some(api) ==> (has_no_newline(spec_module_path_text(m.path))
                    ==> maps_whole_lines(api.text@, api.mappings@))
            },
            None => r matches Some(api) && api.text@ == no_module_text()
                && api.module_name@ == Seq::<char>::empty() && api.mappings@.len() == 0
                && maps_whole_lines(api.text@, api.mappings@),
        },
{
    match module {
        None => Some(no_module()),
        Some(m) => {
            let (lines, module_name) = collect_lines(m);
            if mapped_lines_fit_in(&lines) {
                let r = assemble(&lines, module_name);
                proof {
                    if has_no_newline(spec_module_path_text(m.path)) {
                        lemma_public_api_whole_lines(*m, r);
                    }
                }
                Some(r)
            } else {
                None
            }
        },
    }
}

} // verus!
