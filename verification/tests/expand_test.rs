use ditto_replay::expand::{
    expand_impl_method, expand_instrument, expand_instrument_trait, expand_record_io,
    expand_trait_wrapper_method, extract_args, is_tokio_spawn_path, return_type,
    spawn_with_ctx_path, FnItem, FnParam, ImplBlock, ImplPart, TraitDef, TraitPart,
};

fn item(vis: &str, sig: &str, name: &str, params: Vec<FnParam>, output: Option<&str>, block: &str) -> FnItem {
    FnItem {
        vis: vis.to_string(),
        sig: sig.to_string(),
        name: name.to_string(),
        is_async: sig.contains("async"),
        params,
        output: output.map(|s| s.to_string()),
        block: block.to_string(),
        whole: format!("{vis} {sig} {block}"),
    }
}

fn named(s: &str) -> FnParam {
    FnParam::Named(s.to_string())
}

#[test]
fn record_io_rejects_sync_fn() {
    let func = item("", "fn sync_fn() -> u64", "sync_fn", vec![], Some("u64"), "{ 42 }");
    let result = expand_record_io(&func);
    assert!(result.is_err());
    assert!(
        result.unwrap_err().contains("async fn"),
        "error message must mention `async fn`"
    );
}

#[test]
fn record_io_accepts_async_fn() {
    let func = item(
        "",
        "async fn my_fn(x: u64) -> u64",
        "my_fn",
        vec![named("x")],
        Some("u64"),
        "{ x }",
    );
    let text = expand_record_io(&func).unwrap();
    let parsed: syn::ItemFn = syn::parse_str(&text).unwrap();
    assert_eq!(parsed.sig.ident.to_string(), "my_fn");
    assert!(parsed.sig.asyncness.is_some());
}

#[test]
fn expand_impl_method_passes_through_sync() {
    let method = item(
        "",
        "fn sync_method(&self) -> &str",
        "sync_method",
        vec![FnParam::Receiver],
        Some("&str"),
        "{ \"sync\" }",
    );
    let text = expand_impl_method(&method);
    let reparsed: syn::ImplItemFn = syn::parse_str(&text).unwrap();
    assert_eq!(reparsed.sig.ident.to_string(), "sync_method");
    assert!(reparsed.sig.asyncness.is_none());
    assert_eq!(text, method.whole);
}

#[test]
fn expand_impl_method_instruments_async() {
    let method = item(
        "pub",
        "async fn compute(&self, x: u64) -> u64",
        "compute",
        vec![FnParam::Receiver, named("x")],
        Some("u64"),
        "{ x * 2 }",
    );
    let text = expand_impl_method(&method);
    assert!(text.contains("replay_core"), "generated code must reference replay_core");
    assert!(text.contains("next_interaction_slot"), "must allocate an interaction slot");
    let reparsed: syn::ImplItemFn = syn::parse_str(&text).unwrap();
    assert_eq!(reparsed.sig.ident.to_string(), "compute");
}

#[test]
fn arguments_are_the_plain_names() {
    let params = vec![FnParam::Receiver, named("a"), FnParam::Pattern, named("b")];
    assert_eq!(extract_args(&params), vec!["a", "b"]);
    assert_eq!(return_type(&None), "()");
    assert_eq!(return_type(&Some("Vec<u8>".to_string())), "Vec<u8>");
}

#[test]
fn trait_methods_delegate() {
    let sync = item(
        "",
        "fn label(&self, n: u8) -> u8",
        "label",
        vec![FnParam::Receiver, named("n")],
        Some("u8"),
        "",
    );
    let text = expand_trait_wrapper_method(&sync);
    assert!(text.contains("self.0.label(n)"));
    assert!(!text.contains("replay_core"));
    let parsed: syn::ImplItemFn = syn::parse_str(&text).unwrap();
    assert_eq!(parsed.block.stmts.len(), 1);
    let run = item(
        "",
        "async fn run(&self, a: u8, b: u8)",
        "run",
        vec![FnParam::Receiver, named("a"), named("b")],
        None,
        "",
    );
    let text = expand_trait_wrapper_method(&run);
    assert!(text.contains("self.0.run(a, b).await"));
    assert!(text.contains("record_fn_call"));
    syn::parse_str::<syn::ImplItemFn>(&text).unwrap();
}

#[test]
fn an_impl_block_is_instrumented_item_by_item() {
    let block = ImplBlock {
        header: "impl Adder".to_string(),
        items: vec![
            ImplPart::Other("const N: u8 = 1;".to_string()),
            ImplPart::Method(item(
                "",
                "async fn add(&self, a: u64)",
                "add",
                vec![FnParam::Receiver, named("a")],
                None,
                "{ }",
            )),
            ImplPart::Method(item(
                "",
                "fn label(&self) -> u8",
                "label",
                vec![FnParam::Receiver],
                Some("u8"),
                "{ 3 }",
            )),
        ],
    };
    let text = expand_instrument(&block);
    let parsed: syn::ItemImpl = syn::parse_str(&text).unwrap();
    assert_eq!(parsed.items.len(), 3);
    assert_eq!(text.matches("next_interaction_slot").count(), 1);
    assert!(text.contains("const N: u8 = 1;"));
}

#[test]
fn instrument_trait_wrapper_struct_exists() {
    let def = TraitDef {
        whole: "pub trait Greeter { type Out; const K: u8; async fn greet(&self, name: String) -> Greeting; }".to_string(),
        vis: "pub".to_string(),
        name: "Greeter".to_string(),
        params: String::new(),
        param_names: vec![],
        predicates: String::new(),
        items: vec![
            TraitPart::Type("Out".to_string()),
            TraitPart::Const("K".to_string(), "u8".to_string()),
            TraitPart::Method(item(
                "",
                "async fn greet(&self, name: String) -> Greeting",
                "greet",
                vec![FnParam::Receiver, named("name")],
                Some("Greeting"),
                "",
            )),
            TraitPart::Other,
        ],
    };
    let text = expand_instrument_trait(&def);
    let file: syn::File = syn::parse_str(&text).unwrap();
    assert_eq!(file.items.len(), 3);
    assert!(text.starts_with(&def.whole));
    match &file.items[1] {
        syn::Item::Struct(s) => {
            assert_eq!(s.ident.to_string(), "ReplayGreeter");
            assert_eq!(s.generics.params.len(), 1);
        }
        _ => panic!("a struct"),
    }
    match &file.items[2] {
        syn::Item::Impl(i) => assert_eq!(i.items.len(), 3),
        _ => panic!("an impl"),
    }
    assert!(text.contains("self.0.greet(name).await"));
}

#[test]
fn generic_traits_pass_their_parameters_on() {
    let def = TraitDef {
        whole: "trait G<'a, A: Clone> { fn f(&self) -> A; }".to_string(),
        vis: String::new(),
        name: "G".to_string(),
        params: "'a, A: Clone".to_string(),
        param_names: vec!["'a".to_string(), "A".to_string()],
        predicates: String::new(),
        items: vec![TraitPart::Method(item(
            "",
            "fn f(&self) -> A",
            "f",
            vec![FnParam::Receiver],
            Some("A"),
            "",
        ))],
    };
    let text = expand_instrument_trait(&def);
    assert!(text.contains("<'a, A: Clone, T>"));
    assert!(text.contains("for ReplayG<'a, A, T>"));
    let file: syn::File = syn::parse_str(&text).unwrap();
    assert_eq!(file.items.len(), 3);
}

#[test]
fn where_clauses_are_passed_on() {
    let def = TraitDef {
        whole: "trait W<A> where A: Copy, { fn f(&self); }".to_string(),
        vis: String::new(),
        name: "W".to_string(),
        params: "A".to_string(),
        param_names: vec!["A".to_string()],
        predicates: "A: Copy,".to_string(),
        items: vec![TraitPart::Method(item("", "fn f(&self)", "f", vec![FnParam::Receiver], None, ""))],
    };
    let text = expand_instrument_trait(&def);
    assert!(text.contains("struct ReplayW<A, T>(pub T) where T: W<A>, A: Copy,;"));
    let file: syn::File = syn::parse_str(&text).unwrap();
    match &file.items[2] {
        syn::Item::Impl(i) => {
            assert_eq!(i.generics.where_clause.as_ref().unwrap().predicates.len(), 2)
        }
        _ => panic!("an impl"),
    }
}

#[test]
fn spawn_paths_are_recognised() {
    let path = |s: &[&str]| is_tokio_spawn_path(&s.iter().map(|x| x.to_string()).collect());
    assert!(path(&["tokio", "spawn"]));
    assert!(path(&["tokio", "task", "spawn"]));
    assert!(path(&["spawn"]));
    assert!(!path(&["task", "spawn"]));
    assert!(!path(&["tokio"]));
    assert!(!path(&["tokio", "spawn_blocking"]));
    assert!(!path(&["x", "tokio", "spawn"]));
    assert!(!path(&[]));
    assert_eq!(spawn_with_ctx_path(), "::replay_core::spawn_with_ctx");
}
