use public_api::api::{public_api, public_api_checked, PublicApi, PublicApiBuilder};
use public_api::model::{
    AdtItem, AdtKind, AdtRef, AssocItem, AssocKind, ConstItem, Declaration, ImplDef, ModuleDef,
    ModuleInfo, ModulePath, NamedItem, NavTarget, SelfTy, SymbolKind, TextRange, TraitItem,
    TraitRef,
};

fn s(x: &str) -> String {
    x.to_string()
}

fn nav(name: &str, kind: SymbolKind, start: u32) -> NavTarget {
    NavTarget {
        file_id: 1,
        full_range: TextRange::new(start, start + 10),
        focus_range: None,
        name: s(name),
        kind: Some(kind),
        container_name: None,
        description: None,
        docs: None,
        alias: None,
    }
}

fn path(krate: &str, segments: &[&str]) -> ModulePath {
    ModulePath { krate: Some(s(krate)), segments: segments.iter().map(|x| s(x)).collect() }
}

fn item(kind: AssocKind, name: &str, display: &str, is_public: bool) -> AssocItem {
    let symbol = match kind {
        AssocKind::Function => SymbolKind::Function,
        AssocKind::Const => SymbolKind::Const,
        AssocKind::TypeAlias => SymbolKind::TypeAlias,
    };
    AssocItem {
        kind,
        name: Some(s(name)),
        display: s(display),
        is_public,
        nav: Some(nav(name, symbol, 50)),
    }
}

fn adt_decl(id: u64, kind: AdtKind, name: &str, display: &str) -> Declaration {
    let symbol = match kind {
        AdtKind::Struct => SymbolKind::Struct,
        AdtKind::Enum => SymbolKind::Enum,
        AdtKind::Union => SymbolKind::Union,
    };
    Declaration {
        name: s(name),
        def: ModuleDef::Adt(AdtItem { id, kind, name: s(name), display: s(display) }),
        nav: Some(nav(name, symbol, 20)),
    }
}

fn fn_decl(name: &str, display: &str) -> Declaration {
    Declaration {
        name: s(name),
        def: ModuleDef::Function(NamedItem { name: s(name), display: s(display) }),
        nav: Some(nav(name, SymbolKind::Function, 30)),
    }
}

fn trait_decl(id: u64, name: &str, display: &str, items: Vec<AssocItem>) -> Declaration {
    Declaration {
        name: s(name),
        def: ModuleDef::Trait(TraitItem {
            id,
            name: s(name),
            display: s(display),
            module: Some(path("rocks", &["arith"])),
            items,
        }),
        nav: Some(nav(name, SymbolKind::Trait, 40)),
    }
}

fn adt_ref(id: u64, name: &str, module: ModulePath, is_public: bool) -> AdtRef {
    AdtRef { id, name: s(name), module: Some(module), is_public }
}

fn trait_ref(id: u64, name: &str) -> TraitRef {
    TraitRef {
        id,
        name: s(name),
        display: format!("trait {}", name),
        module: Some(path("rocks", &["arith"])),
        is_public: true,
    }
}

fn impl_def(self_ty: SelfTy, trait_: Option<TraitRef>, items: Vec<AssocItem>) -> ImplDef {
    ImplDef { self_ty, trait_, items, nav: Some(nav("impl", SymbolKind::Impl, 60)) }
}

fn module(path: ModulePath, decls: Vec<Declaration>, impls: Vec<ImplDef>) -> ModuleInfo {
    let name = path.segments.last().cloned().unwrap_or_default();
    ModuleInfo {
        path,
        nav: nav(&name, SymbolKind::Module, 0),
        declarations: decls,
        impls,
    }
}

/// The byte range of a mapping, as text.
fn mapped_text<'a>(api: &'a PublicApi, i: usize) -> &'a str {
    let r = api.mappings[i].range;
    &api.text[r.start() as usize..r.end() as usize]
}

#[test]
fn renders_public_api_for_file_module() {
    let int_path = path("rocks", &["arith", "int"]);
    let m = module(
        path("rocks", &["arith", "int"]),
        vec![
            fn_decl("helper", "pub fn helper()"),
            adt_decl(1, AdtKind::Struct, "Int", "pub struct Int;"),
        ],
        vec![
            impl_def(
                SelfTy { adt: Some(adt_ref(1, "Int", int_path, true)), display: s("Int") },
                None,
                vec![
                    item(AssocKind::Function, "zero", "pub fn zero() -> Self", true),
                    item(AssocKind::Function, "private", "fn private() -> Self", false),
                ],
            ),
            impl_def(
                SelfTy {
                    adt: Some(adt_ref(2, "Hidden", path("rocks", &["arith", "int"]), false)),
                    display: s("Hidden"),
                },
                None,
                vec![item(AssocKind::Function, "leaked_if_not_filtered", "pub fn leaked_if_not_filtered()", true)],
            ),
        ],
    );

    let public_api = public_api(Some(&m));

    assert!(public_api.text.contains("pub mod rocks::arith::int"), "{}", public_api.text);
    assert!(
        public_api.text.contains("pub struct rocks::arith::int::Int"),
        "{}",
        public_api.text
    );
    assert!(
        public_api.text.contains("pub fn rocks::arith::int::helper"),
        "{}",
        public_api.text
    );
    assert!(
        public_api.text.contains("pub fn rocks::arith::int::Int::zero"),
        "{}",
        public_api.text
    );
    assert!(!public_api.text.contains("private"), "{}", public_api.text);
    assert!(!public_api.text.contains("leaked_if_not_filtered"), "{}", public_api.text);
    assert!(!public_api.mappings.is_empty());
}

#[test]
fn renders_public_reexports_and_item_children() {
    let arith = path("rocks", &["arith"]);
    let int_ty = || SelfTy {
        adt: Some(adt_ref(1, "Int", path("rocks", &["arith", "int"]), true)),
        display: s("Int"),
    };
    let m = module(
        arith,
        vec![
            adt_decl(1, AdtKind::Struct, "Int", "pub struct Int;"),
            trait_decl(
                10,
                "ToText",
                "pub trait ToText",
                vec![item(AssocKind::Function, "to_text", "pub fn to_text(&self) -> String;", true)],
            ),
            trait_decl(11, "Marker", "pub trait Marker", vec![]),
            trait_decl(
                12,
                "Solver",
                "pub trait Solver",
                vec![
                    item(AssocKind::TypeAlias, "Model", "pub type Model;", true),
                    item(AssocKind::Const, "COMPLETE", "pub const COMPLETE: bool;", true),
                    item(AssocKind::Function, "solve", "pub fn solve(&self) -> Self::Model;", true),
                ],
            ),
            adt_decl(3, AdtKind::Enum, "ResultKind", "pub enum ResultKind {\n    Sat,\n    Unsat,\n}"),
            adt_decl(
                4,
                AdtKind::Struct,
                "Config",
                "pub struct Config {\n    pub limit: usize,\n    /* private fields */\n}",
            ),
        ],
        vec![
            impl_def(int_ty(), None, vec![item(AssocKind::Function, "zero", "pub fn zero() -> Self", true)]),
            impl_def(
                int_ty(),
                Some(trait_ref(10, "ToText")),
                vec![item(AssocKind::Function, "to_text", "fn to_text(&self) -> String", false)],
            ),
            impl_def(int_ty(), Some(trait_ref(11, "Marker")), vec![]),
        ],
    );

    let public_api = public_api(Some(&m));

    assert!(public_api.text.contains("pub struct rocks::arith::Int"), "{}", public_api.text);
    assert!(
        public_api.text.contains("impl rocks::arith::Marker for rocks::arith::Int"),
        "{}",
        public_api.text
    );
    assert!(
        public_api.text.contains("impl rocks::arith::ToText for rocks::arith::Int"),
        "{}",
        public_api.text
    );
    assert!(public_api.text.contains("pub fn rocks::arith::Int::zero"), "{}", public_api.text);
    assert!(
        public_api.text.contains("pub fn rocks::arith::Int::to_text"),
        "{}",
        public_api.text
    );
    assert!(public_api.text.contains("pub trait rocks::arith::Solver"), "{}", public_api.text);
    assert!(
        public_api.text.contains("pub type rocks::arith::Solver::Model"),
        "{}",
        public_api.text
    );
    assert!(
        public_api.text.contains("pub const rocks::arith::Solver::COMPLETE"),
        "{}",
        public_api.text
    );
    assert!(
        public_api.text.contains("pub fn rocks::arith::Solver::solve"),
        "{}",
        public_api.text
    );
    assert!(public_api.text.contains("Sat"), "{}", public_api.text);
    assert!(public_api.text.contains("pub limit: usize"), "{}", public_api.text);
    assert!(!public_api.text.contains("secret"), "{}", public_api.text);
}

#[test]
fn whole_view_in_order_with_mappings() {
    let m = module(
        path("rocks", &["arith", "int"]),
        vec![
            fn_decl("helper", "pub fn helper()"),
            adt_decl(1, AdtKind::Struct, "Int", "pub struct Int;"),
        ],
        vec![impl_def(
            SelfTy { adt: Some(adt_ref(1, "Int", path("rocks", &["arith", "int"]), true)), display: s("Int") },
            None,
            vec![
                item(AssocKind::Function, "zero", "pub fn zero() -> Self", true),
                item(AssocKind::Function, "one", "pub fn one() -> Self", true),
            ],
        )],
    );
    let api = public_api(Some(&m));
    assert_eq!(
        api.text,
        "pub mod rocks::arith::int\n\
         pub struct rocks::arith::int::Int;\n\
         pub fn rocks::arith::int::helper()\n\
         impl rocks::arith::int::Int\n\
         pub fn rocks::arith::int::Int::one() -> Self\n\
         pub fn rocks::arith::int::Int::zero() -> Self\n"
    );
    assert_eq!(api.module_name, "rocks::arith::int");
    assert_eq!(api.mappings.len(), 6);
    let lines: Vec<&str> = api.text.lines().collect();
    for (i, line) in lines.iter().enumerate() {
        assert_eq!(mapped_text(&api, i), *line);
        let r = api.mappings[i].range;
        assert_eq!(api.text.as_bytes()[r.end() as usize], b'\n');
        assert!(r.start() == 0 || api.text.as_bytes()[r.start() as usize - 1] == b'\n');
        assert_eq!(api.mappings[i].kind, api.mappings[i].target.kind);
    }
    assert_eq!(api.mappings[0].name, "rocks::arith::int");
    assert_eq!(api.mappings[0].kind, Some(SymbolKind::Module));
    assert_eq!(api.mappings[3].name, "impl");
    assert_eq!(api.mappings[3].kind, Some(SymbolKind::Impl));
    assert_eq!(api.mappings[1].name, "Int");
    assert_eq!(api.mappings[1].target.name, "Int");
    assert_eq!(api.mappings[0].range, TextRange::new(0, 25));
}

#[test]
fn no_module_found() {
    let api = public_api(None);
    assert_eq!(api.text, "// No Rust module found for this file.\n");
    assert_eq!(api.module_name, "");
    assert!(api.mappings.is_empty());
}

#[test]
fn mapping_ranges_count_bytes() {
    let m = module(
        path("krate", &["ünï"]),
        vec![fn_decl("f", "pub fn f(x: &str) // é")],
        vec![],
    );
    let api = public_api(Some(&m));
    assert_eq!(api.text, "pub mod krate::ünï\npub fn krate::ünï::f(x: &str) // é\n");
    let first = "pub mod krate::ünï".len() as u32;
    assert_eq!(api.mappings[0].range, TextRange::new(0, first));
    assert_eq!(api.mappings[1].range.start(), first + 1);
    assert_eq!(mapped_text(&api, 1), "pub fn krate::ünï::f(x: &str) // é");
}

#[test]
fn unmapped_items_are_still_rendered() {
    let mut d = fn_decl("helper", "pub fn helper()");
    d.nav = None;
    let m = module(path("rocks", &[]), vec![d], vec![]);
    let api = public_api(Some(&m));
    assert_eq!(api.text, "pub mod rocks\npub fn rocks::helper()\n");
    assert_eq!(api.mappings.len(), 1);
}

#[test]
fn private_trait_and_empty_inherent_impls_are_hidden() {
    let ty = || SelfTy { adt: None, display: s("u32") };
    let mut private_trait = trait_ref(5, "Hidden");
    private_trait.is_public = false;
    let m = module(
        path("rocks", &["m"]),
        vec![],
        vec![
            impl_def(ty(), Some(private_trait), vec![item(AssocKind::Function, "f", "fn f()", false)]),
            impl_def(ty(), None, vec![item(AssocKind::Function, "g", "fn g()", false)]),
            impl_def(ty(), None, vec![]),
        ],
    );
    let api = public_api(Some(&m));
    assert_eq!(api.text, "pub mod rocks::m\n");
}

#[test]
fn trait_impl_shows_all_items_and_falls_back_to_trait_display() {
    let ty = SelfTy { adt: None, display: s("u32") };
    let foreign = TraitRef {
        id: 99,
        name: s("Display"),
        display: s("trait trait Display"),
        module: None,
        is_public: true,
    };
    let m = module(
        path("rocks", &["m"]),
        vec![],
        vec![impl_def(ty, Some(foreign), vec![
            item(AssocKind::Function, "fmt", "fn fmt(&self)", false),
            AssocItem { kind: AssocKind::Const, name: None, display: s("const _: () = ();"), is_public: false, nav: None },
        ])],
    );
    let api = public_api(Some(&m));
    assert_eq!(api.text, "pub mod rocks::m\nimpl Display for u32\npub fn u32::fmt(&self)\n");
}

#[test]
fn declarations_sorted_stably_by_name() {
    let m = module(
        path("c", &[]),
        vec![
            fn_decl("b", "pub fn b()"),
            fn_decl("a", "pub fn a() // first"),
            fn_decl("B", "pub fn B()"),
            fn_decl("a", "pub fn a() // second"),
        ],
        vec![],
    );
    let api = public_api(Some(&m));
    assert_eq!(
        api.text,
        "pub mod c\npub fn c::B()\npub fn c::a() // first\npub fn c::a() // second\npub fn c::b()\n"
    );
}

#[test]
fn unnamed_consts_variants_and_builtins_render_nothing() {
    let m = module(
        path("c", &[]),
        vec![
            Declaration {
                name: s("_"),
                def: ModuleDef::Const(ConstItem { name: None, display: s("pub const _: () = ();") }),
                nav: None,
            },
            Declaration { name: s("V"), def: ModuleDef::EnumVariant, nav: None },
            Declaration { name: s("u8"), def: ModuleDef::BuiltinType, nav: None },
            Declaration {
                name: s("K"),
                def: ModuleDef::Const(ConstItem { name: Some(s("K")), display: s("pub const K: u8 = 1;") }),
                nav: None,
            },
            Declaration {
                name: s("sub"),
                def: ModuleDef::Module(path("c", &["sub"])),
                nav: None,
            },
            Declaration {
                name: s("m"),
                def: ModuleDef::Macro(NamedItem { name: s("m"), display: s("macro_rules! m") }),
                nav: None,
            },
        ],
        vec![],
    );
    let api = public_api(Some(&m));
    assert_eq!(
        api.text,
        "pub mod c\npub const c::K: u8 = 1;\nmacro_rules! c::m\npub mod c::sub\n"
    );
}

#[test]
fn builder_records_byte_ranges() {
    let mut b = PublicApiBuilder::new();
    b.push_line(s("é"));
    b.push_mapped_line(s("ab"), nav("x", SymbolKind::Struct, 0), s("x"));
    assert_eq!(b.text, "é\nab\n");
    assert_eq!(b.mappings.len(), 1);
    assert_eq!(b.mappings[0].range, TextRange::new(3, 5));
    assert_eq!(b.mappings[0].kind, Some(SymbolKind::Struct));
    assert_eq!(b.mappings[0].name, "x");
}

#[test]
fn builder_keeps_each_mapping_on_its_own_line() {
    let mut b = PublicApiBuilder::new();
    b.push_mapped_line(s("pub fn ä()"), nav("ä", SymbolKind::Function, 0), s("ä"));
    b.push_line(s("impl S"));
    b.push_mapped_line(s("pub struct S"), nav("S", SymbolKind::Struct, 1), s("S"));
    let bytes = b.text.as_bytes();
    assert_eq!(*bytes.last().unwrap(), b'\n');
    assert_eq!(b.mappings.len(), 2);
    let mut prev_end: Option<usize> = None;
    for m in &b.mappings {
        let start = m.range.start() as usize;
        let end = m.range.end() as usize;
        assert_eq!(bytes[end], b'\n');
        assert!(start == 0 || bytes[start - 1] == b'\n');
        assert!(!bytes[start..end].contains(&b'\n'));
        assert_eq!(m.kind, m.target.kind);
        if let Some(p) = prev_end {
            assert!(p < start);
        }
        prev_end = Some(end);
    }
    assert_eq!(b.mappings[0].range, TextRange::new(0, 11));
    assert_eq!(b.mappings[1].range, TextRange::new(19, 31));
}

#[test]
fn mapping_keeps_target_details_and_macro_kinds() {
    let mut b = PublicApiBuilder::new();
    let mut target = nav("derive_it", SymbolKind::Derive, 0);
    target.description = Some(s("pub macro derive_it"));
    target.docs = Some(s("Derives it."));
    target.alias = Some(s("it"));
    b.push_mapped_line(s("pub macro derive_it"), target, s("derive_it"));
    b.push_mapped_line(s("pub macro pm"), nav("pm", SymbolKind::ProcMacro, 1), s("pm"));
    assert_eq!(b.mappings[0].kind, Some(SymbolKind::Derive));
    assert_eq!(b.mappings[0].target.description, Some(s("pub macro derive_it")));
    assert_eq!(b.mappings[0].target.docs, Some(s("Derives it.")));
    assert_eq!(b.mappings[0].target.alias, Some(s("it")));
    assert_eq!(b.mappings[1].kind, Some(SymbolKind::ProcMacro));
    assert_eq!(b.mappings[1].range, TextRange::new(20, 32));
}

#[test]
fn text_range_at_and_bounds() {
    let r = TextRange::at(4, 6);
    assert_eq!(r.start(), 4);
    assert_eq!(r.end(), 10);
    assert_eq!(r, TextRange::new(4, 10));
}

#[test]
fn checked_view_matches_unchecked() {
    let m = module(path("rocks", &["m"]), vec![fn_decl("f", "pub fn f()")], vec![]);
    let a = public_api(Some(&m));
    let b = public_api_checked(Some(&m)).unwrap();
    assert_eq!(a.text, b.text);
    assert_eq!(a.module_name, b.module_name);
    assert_eq!(a.mappings.len(), b.mappings.len());
    let none = public_api_checked(None).unwrap();
    assert_eq!(none.text, "// No Rust module found for this file.\n");
}
