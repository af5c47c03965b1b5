//! Code that is generated around annotated functions, methods and traits.
//!
//! Items are given by the source text of their parts and generated as source
//! text.
use crate::text;
use crate::text::{concat, join, same_text};
use vstd::prelude::*;
use vstd::string::*;

verus! {

// ---------------------------------------------------------------------------
// Items
// ---------------------------------------------------------------------------

/// A parameter of a function.
pub enum FnParam {
    /// `self` in any form.
    Receiver,
    /// A parameter that is a plain name.
    Named(String),
    /// A parameter that is a pattern.
    Pattern,
}

/// A function, a method or the declaration of a method.
pub struct FnItem {
    /// The visibility, empty if there is none.
    pub vis: String,
    /// The signature.
    pub sig: String,
    pub name: String,
    pub is_async: bool,
    pub params: Vec<FnParam>,
    /// The type that is returned, if one is written.
    pub output: Option<String>,
    /// The body, with its braces; empty for a declaration.
    pub block: String,
    /// The whole item.
    pub whole: String,
}

/// What an [`FnItem`] is.
pub struct FnView {
    pub vis: Seq<char>,
    pub sig: Seq<char>,
    pub name: Seq<char>,
    pub is_async: bool,
    pub args: Seq<Seq<char>>,
    pub output: Seq<char>,
    pub block: Seq<char>,
    pub whole: Seq<char>,
}

/// The names of the parameters that are plain names.
pub open spec fn named_params(params: Seq<FnParam>) -> Seq<Seq<char>>
    decreases params.len(),
{
    if params.len() == 0 {
        Seq::empty()
    } else {
        let before = named_params(params.drop_last());
        match params.last() {
            FnParam::Named(s) => before.push(s@),
            _ => before,
        }
    }
}

/// The type that is returned: the unit type if none is written.
pub open spec fn output_text(output: Option<String>) -> Seq<char> {
    match output {
        Some(t) => t@,
        None => "()"@,
    }
}

impl View for FnItem {
    type V = FnView;

    open spec fn view(&self) -> FnView {
        FnView {
            vis: self.vis@,
            sig: self.sig@,
            name: self.name@,
            is_async: self.is_async,
            args: named_params(self.params@),
            output: output_text(self.output),
            block: self.block@,
            whole: self.whole@,
        }
    }
}

/// The names of the parameters that are plain names.
pub fn extract_args(params: &Vec<FnParam>) -> (r: Vec<String>)
    ensures
        text::texts(r@) == named_params(params@),
{
    let mut out: Vec<String> = Vec::new();
    let mut i: usize = 0;
    proof {
        assert(params@.take(0) =~= Seq::<FnParam>::empty());
        assert(text::texts(out@) =~= Seq::<Seq<char>>::empty());
    }
    while i < params.len()
        invariant
            i <= params@.len(),
            text::texts(out@) == named_params(params@.take(i as int)),
        decreases params.len() - i,
    {
        let ghost done = text::texts(out@);
        proof {
            assert(params@.take(i + 1).drop_last() =~= params@.take(i as int));
            assert(params@.take(i + 1).last() == params@[i as int]);
        }
        if let FnParam::Named(s) = &params[i] {
            out.push(s.clone());
            proof {
                assert(text::texts(out@) =~= done.push(s@));
            }
        }
        i = i + 1;
    }
    proof {
        assert(params@.take(i as int) =~= params@);
    }
    out
}

/// The type that is returned.
pub fn return_type(output: &Option<String>) -> (r: String)
    ensures
        r@ == output_text(*output),
{
    match output {
        Some(t) => t.clone(),
        None => "()".to_owned(),
    }
}

// ---------------------------------------------------------------------------
// The body of an instrumented function
// ---------------------------------------------------------------------------

/// The statement that puts an argument into the recorded request: as JSON, or
/// by its debug text if it has no JSON form.
pub open spec fn argument_text(arg: Seq<char>) -> Seq<char> {
    "{ let __v = ::serde_json::to_value(&"@ + arg
        + ").unwrap_or_else(|_| ::serde_json::Value::String(format!(\"{:?}\", &"@ + arg
        + "))); __m.insert(\""@ + arg + "\".to_string(), __v); } "@
}

/// The statements for the first `k` arguments.
pub open spec fn arguments_text(args: Seq<Seq<char>>, k: int) -> Seq<char>
    decreases k,
{
    if k <= 0 {
        Seq::empty()
    } else {
        arguments_text(args, k - 1) + argument_text(args[k - 1])
    }
}

/// An instrumented function. It takes a slot; in replay it returns the stored
/// value, or runs `body` if there is none; otherwise it runs `body`, and
/// records the result when recording or shadowing.
pub open spec fn instrumented(
    vis: Seq<char>,
    sig: Seq<char>,
    name: Seq<char>,
    args: Seq<Seq<char>>,
    output: Seq<char>,
    body: Seq<char>,
) -> Seq<char> {
    vis + " "@ + sig
        + " { let __fp = { let mut s = ::std::module_path!().to_string(); s.push_str(\"::\"); s.push_str(\""@
        + name
        + "\"); s }; "@
        + "let __slot = ::replay_core::next_interaction_slot( ::replay_core::CallType::Function, __fp.clone(), ); match __slot.as_ref().map(|s| &s.mode) "@
        + "{ Some(::replay_core::ReplayMode::Replay) => { let __slot = __slot.unwrap(); match ::replay_core::replay_fn_call(&__slot).await"@
        + " { Some(__val) => { ::serde_json::from_value::<"@
        + output
        + ">(__val).unwrap_or_else(|e| panic!( \"ditto: failed to deserialize stored return value for `{}`: {e}\", \""@
        + name + "\" )) } None => { "@ + body
        + " } } } _ => { let __request: ::serde_json::Value = { let mut __m = ::serde_json::Map::new(); "@
        + arguments_text(args, args.len() as int)
        + "::serde_json::Value::Object(__m) }; let __start = ::std::time::Instant::now(); let __result: "@
        + output + " = { "@ + body
        + " }; "@
        + "if let Some(__slot) = __slot { if matches!( __slot.mode, ::replay_core::ReplayMode::Record | ::replay_core::ReplayMode::Shadow ) { let __response = ::serde_json::to_value(&__result).unwrap_or(::serde_json::Value::Null); let __ms = __start.elapsed().as_millis() as u64; ::replay_core::record_fn_call( __slot, __request, __response, __ms, ).await; } }"@
        + " __result } } }"@
}

/// The statements for all arguments.
fn arguments_source(args: &Vec<String>) -> (r: String)
    ensures
        r@ == arguments_text(text::texts(args@), args@.len() as int),
{
    let mut s = String::new();
    let mut i: usize = 0;
    while i < args.len()
        invariant
            i <= args@.len(),
            s@ == arguments_text(text::texts(args@), i as int),
        decreases args.len() - i,
    {
        let ghost before = s@;
        s.append("{ let __v = ::serde_json::to_value(&");
        s.append(args[i].as_str());
        s.append(").unwrap_or_else(|_| ::serde_json::Value::String(format!(\"{:?}\", &");
        s.append(args[i].as_str());
        s.append("))); __m.insert(\"");
        s.append(args[i].as_str());
        s.append("\".to_string(), __v); } ");
        proof {
            assert(text::texts(args@)[i as int] == args@[i as int]@);
            assert(s@ =~= before + argument_text(args@[i as int]@));
        }
        i = i + 1;
    }
    s
}

/// An instrumented function.
pub fn gen_record_replay_body(
    vis: &str,
    sig: &str,
    fn_name: &str,
    args: &Vec<String>,
    return_ty: &str,
    body: &str,
) -> (r: String)
    ensures
        r@ == instrumented(vis@, sig@, fn_name@, text::texts(args@), return_ty@, body@),
{
    let mut s = concat(vis, " ");
    s.append(sig);
    s.append(
        " { let __fp = { let mut s = ::std::module_path!().to_string(); s.push_str(\"::\"); s.push_str(\"",
    );
    s.append(fn_name);
    s.append("\"); s }; ");
    s.append(
        "let __slot = ::replay_core::next_interaction_slot( ::replay_core::CallType::Function, __fp.clone(), ); match __slot.as_ref().map(|s| &s.mode) ",
    );
    s.append(
        "{ Some(::replay_core::ReplayMode::Replay) => { let __slot = __slot.unwrap(); match ::replay_core::replay_fn_call(&__slot).await",
    );
    s.append(" { Some(__val) => { ::serde_json::from_value::<");
    s.append(return_ty);
    s.append(
        ">(__val).unwrap_or_else(|e| panic!( \"ditto: failed to deserialize stored return value for `{}`: {e}\", \"",
    );
    s.append(fn_name);
    s.append("\" )) } None => { ");
    s.append(body);
    s.append(
        " } } } _ => { let __request: ::serde_json::Value = { let mut __m = ::serde_json::Map::new(); ",
    );
    s.append(arguments_source(args).as_str());
    s.append(
        "::serde_json::Value::Object(__m) }; let __start = ::std::time::Instant::now(); let __result: ",
    );
    s.append(return_ty);
    s.append(" = { ");
    s.append(body);
    s.append(" }; ");
    s.append(
        "if let Some(__slot) = __slot { if matches!( __slot.mode, ::replay_core::ReplayMode::Record | ::replay_core::ReplayMode::Shadow ) { let __response = ::serde_json::to_value(&__result).unwrap_or(::serde_json::Value::Null); let __ms = __start.elapsed().as_millis() as u64; ::replay_core::record_fn_call( __slot, __request, __response, __ms, ).await; } }",
    );
    s.append(" __result } } }");
    s
}

// ---------------------------------------------------------------------------
// Functions and methods
// ---------------------------------------------------------------------------

/// The instrumented form of a function with a body.
pub open spec fn instrumented_fn(f: FnView) -> Seq<char> {
    instrumented(f.vis, f.sig, f.name, f.args, f.output, f.block)
}

/// The instrumented form of a function with a body.
fn instrument_fn(f: &FnItem) -> (r: String)
    ensures
        r@ == instrumented_fn(f@),
{
    gen_record_replay_body(
        f.vis.as_str(),
        f.sig.as_str(),
        f.name.as_str(),
        &extract_args(&f.params),
        return_type(&f.output).as_str(),
        f.block.as_str(),
    )
}

/// Instruments a function; only an `async fn` can be instrumented.
pub fn expand_record_io(func: &FnItem) -> (r: Result<String, String>)
    ensures
        match r {
            Ok(s) => func.is_async && s@ == instrumented_fn(func@),
            Err(e) => !func.is_async && e@ == "#[record_io] can only be applied to `async fn`"@,
        },
{
    if !func.is_async {
        Err("#[record_io] can only be applied to `async fn`".to_owned())
    } else {
        Ok(instrument_fn(func))
    }
}

/// The generated form of a method: an `async` one is instrumented, any other
/// is left as it is.
pub open spec fn expanded_method(f: FnView) -> Seq<char> {
    if f.is_async {
        instrumented_fn(f)
    } else {
        f.whole
    }
}

/// The generated form of a method.
pub fn expand_impl_method(method: &FnItem) -> (r: String)
    ensures
        r@ == expanded_method(method@),
{
    if !method.is_async {
        method.whole.clone()
    } else {
        instrument_fn(method)
    }
}

/// The call of a method on the wrapped value.
pub open spec fn delegation(f: FnView) -> Seq<char> {
    "self.0."@ + f.name + "("@ + text::join_with(f.args, ", "@) + ")"@
}

/// The method of a wrapper: it calls the method of the wrapped value, and an
/// `async` one is instrumented around that call.
pub open spec fn wrapper_method(f: FnView) -> Seq<char> {
    if f.is_async {
        instrumented(""@, f.sig, f.name, f.args, f.output, delegation(f) + ".await"@)
    } else {
        f.sig + " { "@ + delegation(f) + " }"@
    }
}

/// The method of a wrapper.
pub fn expand_trait_wrapper_method(method: &FnItem) -> (r: String)
    ensures
        r@ == wrapper_method(method@),
{
    let args = extract_args(&method.params);
    let mut call = concat("self.0.", method.name.as_str());
    call.append("(");
    call.append(join(&args, ", ").as_str());
    call.append(")");
    if !method.is_async {
        let mut s = concat(method.sig.as_str(), " { ");
        s.append(call.as_str());
        s.append(" }");
        return s;
    }
    call.append(".await");
    gen_record_replay_body(
        "",
        method.sig.as_str(),
        method.name.as_str(),
        &args,
        return_type(&method.output).as_str(),
        call.as_str(),
    )
}

// ---------------------------------------------------------------------------
// Impl blocks
// ---------------------------------------------------------------------------

/// An item of an `impl` block.
pub enum ImplPart {
    Method(FnItem),
    /// Any other item, as it is.
    Other(String),
}

/// An `impl` block.
pub struct ImplBlock {
    /// What stands before the braces: attributes, generics, trait and type.
    pub header: String,
    pub items: Vec<ImplPart>,
}

/// The generated form of an item of an `impl` block.
pub open spec fn expanded_part(p: ImplPart) -> Seq<char> {
    match p {
        ImplPart::Method(f) => expanded_method(f@),
        ImplPart::Other(s) => s@,
    }
}

/// The generated forms of the first `k` items.
pub open spec fn expanded_parts(items: Seq<ImplPart>, k: int) -> Seq<char>
    decreases k,
{
    if k <= 0 {
        Seq::empty()
    } else {
        expanded_parts(items, k - 1) + expanded_part(items[k - 1]) + " "@
    }
}

/// Instruments every `async` method of an `impl` block.
pub fn expand_instrument(block: &ImplBlock) -> (r: String)
    ensures
        r@ == block.header@ + " { "@ + expanded_parts(block.items@, block.items@.len() as int)
            + "}"@,
{
    let mut s = concat(block.header.as_str(), " { ");
    let ghost head = s@;
    let mut i: usize = 0;
    proof {
        assert(head + Seq::<char>::empty() =~= head);
    }
    while i < block.items.len()
        invariant
            i <= block.items@.len(),
            s@ == head + expanded_parts(block.items@, i as int),
        decreases block.items.len() - i,
    {
        match &block.items[i] {
            ImplPart::Method(f) => {
                s.append(expand_impl_method(f).as_str());
            },
            ImplPart::Other(t) => {
                s.append(t.as_str());
            },
        }
        s.append(" ");
        proof {
            assert(s@ =~= head + expanded_parts(block.items@, i + 1));
        }
        i = i + 1;
    }
    s.append("}");
    s
}

// ---------------------------------------------------------------------------
// Traits
// ---------------------------------------------------------------------------

/// An item of a trait.
pub enum TraitPart {
    Method(FnItem),
    /// An associated type, by its name.
    Type(String),
    /// An associated constant, by its name and its type.
    Const(String, String),
    /// Any other item.
    Other,
}

/// A trait.
pub struct TraitDef {
    /// The whole definition.
    pub whole: String,
    /// The visibility, empty if there is none.
    pub vis: String,
    pub name: String,
    /// The generic parameters with their bounds, without brackets.
    pub params: String,
    /// The names of the generic parameters, in their order.
    pub param_names: Vec<String>,
    /// The predicates of the `where` clause, without the word; empty if there
    /// is none.
    pub predicates: String,
    pub items: Vec<TraitPart>,
}

/// What a [`TraitDef`] is.
pub struct TraitView {
    pub whole: Seq<char>,
    pub vis: Seq<char>,
    pub name: Seq<char>,
    pub params: Seq<char>,
    pub param_names: Seq<Seq<char>>,
    pub predicates: Seq<char>,
    pub items: Seq<TraitPart>,
}

impl View for TraitDef {
    type V = TraitView;

    open spec fn view(&self) -> TraitView {
        TraitView {
            whole: self.whole@,
            vis: self.vis@,
            name: self.name@,
            params: self.params@,
            param_names: text::texts(self.param_names@),
            predicates: self.predicates@,
            items: self.items@,
        }
    }
}

/// The trait with its generic arguments.
pub open spec fn trait_path(t: TraitView) -> Seq<char> {
    if t.param_names.len() == 0 {
        t.name
    } else {
        t.name + "<"@ + text::join_with(t.param_names, ", "@) + ">"@
    }
}

/// The generic parameters of the wrapper: those of the trait, and the wrapped
/// type.
pub open spec fn wrapper_params(t: TraitView) -> Seq<char> {
    if t.param_names.len() == 0 {
        "<T>"@
    } else {
        "<"@ + t.params + ", T>"@
    }
}

/// The generic arguments of the wrapper: the names of its parameters.
pub open spec fn wrapper_args(t: TraitView) -> Seq<char> {
    if t.param_names.len() == 0 {
        "<T>"@
    } else {
        "<"@ + text::join_with(t.param_names, ", "@) + ", T>"@
    }
}

/// The associated types among the first `k` items: those of the wrapped type.
pub open spec fn assoc_types(items: Seq<TraitPart>, k: int) -> Seq<char>
    decreases k,
{
    if k <= 0 {
        Seq::empty()
    } else {
        let before = assoc_types(items, k - 1);
        match items[k - 1] {
            TraitPart::Type(n) => before + "type "@ + n@ + " = T::"@ + n@ + "; "@,
            _ => before,
        }
    }
}

/// The associated constants among the first `k` items: those of the wrapped
/// type.
pub open spec fn assoc_consts(items: Seq<TraitPart>, k: int) -> Seq<char>
    decreases k,
{
    if k <= 0 {
        Seq::empty()
    } else {
        let before = assoc_consts(items, k - 1);
        match items[k - 1] {
            TraitPart::Const(n, ty) => before + "const "@ + n@ + ": "@ + ty@ + " = T::"@ + n@
                + "; "@,
            _ => before,
        }
    }
}

/// The methods of the wrapper for the first `k` items.
pub open spec fn wrapper_methods(items: Seq<TraitPart>, k: int) -> Seq<char>
    decreases k,
{
    if k <= 0 {
        Seq::empty()
    } else {
        let before = wrapper_methods(items, k - 1);
        match items[k - 1] {
            TraitPart::Method(f) => before + wrapper_method(f@) + " "@,
            _ => before,
        }
    }
}

/// The bound of the wrapper: the wrapped type has the trait, and what the
/// trait asks for holds.
pub open spec fn wrapper_where(t: TraitView) -> Seq<char> {
    " where T: "@ + trait_path(t) + ", "@ + t.predicates
}

/// The generated form of a trait: the trait as it is, a wrapper type for it,
/// and the trait for the wrapper.
pub open spec fn expanded_trait(t: TraitView) -> Seq<char> {
    let n = t.items.len() as int;
    let wrapper = "Replay"@ + t.name;
    t.whole + " #[allow(dead_code)] "@ + t.vis + " struct "@ + wrapper + wrapper_params(t)
        + "(pub T)"@ + wrapper_where(t) + "; impl"@ + wrapper_params(t) + " "@ + trait_path(t)
        + " for "@ + wrapper + wrapper_args(t) + wrapper_where(t) + " { "@ + assoc_types(
        t.items,
        n,
    ) + assoc_consts(t.items, n) + wrapper_methods(t.items, n) + "}"@
}

/// The associated types of the wrapper.
fn assoc_types_source(items: &Vec<TraitPart>) -> (r: String)
    ensures
        r@ == assoc_types(items@, items@.len() as int),
{
    let mut s = String::new();
    let mut i: usize = 0;
    while i < items.len()
        invariant
            i <= items@.len(),
            s@ == assoc_types(items@, i as int),
        decreases items.len() - i,
    {
        if let TraitPart::Type(n) = &items[i] {
            s.append("type ");
            s.append(n.as_str());
            s.append(" = T::");
            s.append(n.as_str());
            s.append("; ");
        }
        i = i + 1;
    }
    s
}

/// The associated constants of the wrapper.
fn assoc_consts_source(items: &Vec<TraitPart>) -> (r: String)
    ensures
        r@ == assoc_consts(items@, items@.len() as int),
{
    let mut s = String::new();
    let mut i: usize = 0;
    while i < items.len()
        invariant
            i <= items@.len(),
            s@ == assoc_consts(items@, i as int),
        decreases items.len() - i,
    {
        if let TraitPart::Const(n, ty) = &items[i] {
            s.append("const ");
            s.append(n.as_str());
            s.append(": ");
            s.append(ty.as_str());
            s.append(" = T::");
            s.append(n.as_str());
            s.append("; ");
        }
        i = i + 1;
    }
    s
}

/// The methods of the wrapper.
fn wrapper_methods_source(items: &Vec<TraitPart>) -> (r: String)
    ensures
        r@ == wrapper_methods(items@, items@.len() as int),
{
    let mut s = String::new();
    let mut i: usize = 0;
    while i < items.len()
        invariant
            i <= items@.len(),
            s@ == wrapper_methods(items@, i as int),
        decreases items.len() - i,
    {
        if let TraitPart::Method(f) = &items[i] {
            s.append(expand_trait_wrapper_method(f).as_str());
            s.append(" ");
        }
        i = i + 1;
    }
    s
}

/// The generated form of a trait.
pub fn expand_instrument_trait(def: &TraitDef) -> (r: String)
    ensures
        r@ == expanded_trait(def@),
{
    let wrapper = concat("Replay", def.name.as_str());
    let mut path = def.name.clone();
    let mut params = "<".to_owned();
    let mut args = "<".to_owned();
    if def.param_names.len() == 0 {
        params = "<T>".to_owned();
        args = "<T>".to_owned();
    } else {
        let names = join(&def.param_names, ", ");
        path.append("<");
        path.append(names.as_str());
        path.append(">");
        args.append(names.as_str());
        args.append(", T>");
        params.append(def.params.as_str());
        params.append(", T>");
    }
    let mut bound = concat(" where T: ", path.as_str());
    bound.append(", ");
    bound.append(def.predicates.as_str());
    let mut s = concat(def.whole.as_str(), " #[allow(dead_code)] ");
    s.append(def.vis.as_str());
    s.append(" struct ");
    s.append(wrapper.as_str());
    s.append(params.as_str());
    s.append("(pub T)");
    s.append(bound.as_str());
    s.append("; impl");
    s.append(params.as_str());
    s.append(" ");
    s.append(path.as_str());
    s.append(" for ");
    s.append(wrapper.as_str());
    s.append(args.as_str());
    s.append(bound.as_str());
    s.append(" { ");
    s.append(assoc_types_source(&def.items).as_str());
    s.append(assoc_consts_source(&def.items).as_str());
    s.append(wrapper_methods_source(&def.items).as_str());
    s.append("}");
    proof {
        let t = def@;
        assert(t.param_names.len() == def.param_names@.len());
        assert(path@ =~= trait_path(t));
        assert(params@ =~= wrapper_params(t));
        assert(args@ =~= wrapper_args(t));
        assert(bound@ =~= wrapper_where(t));
        assert(s@ =~= expanded_trait(t));
    }
    s
}

// ---------------------------------------------------------------------------
// Spawned tasks
// ---------------------------------------------------------------------------

/// The paths of the function that spawns a task: `tokio::spawn`,
/// `tokio::task::spawn`, and the bare `spawn`.
pub open spec fn spawn_path(segments: Seq<Seq<char>>) -> bool {
    ||| segments == seq!["spawn"@]
    ||| segments == seq!["tokio"@, "spawn"@]
    ||| segments == seq!["tokio"@, "task"@, "spawn"@]
}

/// Whether a call is that of the function that spawns a task, by the segments
/// of its path.
pub fn is_tokio_spawn_path(segments: &Vec<String>) -> (r: bool)
    ensures
        r == spawn_path(text::texts(segments@)),
{
    let ghost all = text::texts(segments@);
    let one = segments.len() == 1 && same_text(segments[0].as_str(), "spawn");
    let two = segments.len() == 2 && same_text(segments[0].as_str(), "tokio") && same_text(
        segments[1].as_str(),
        "spawn",
    );
    let three = segments.len() == 3 && same_text(segments[0].as_str(), "tokio") && same_text(
        segments[1].as_str(),
        "task",
    ) && same_text(segments[2].as_str(), "spawn");
    proof {
        let bare = seq!["spawn"@];
        let a = seq!["tokio"@, "spawn"@];
        let b = seq!["tokio"@, "task"@, "spawn"@];
        assert(all.len() == segments@.len() && bare.len() == 1 && a.len() == 2 && b.len() == 3);
        assert(forall|i: int| 0 <= i < all.len() ==> all[i] == #[trigger] segments@[i]@);
        if one {
            assert(all =~= bare);
        }
        if two {
            assert(all =~= a);
        }
        if three {
            assert(all =~= b);
        }
        if all == bare {
            assert(all[0] == bare[0]);
        }
        if all == a {
            assert(all[0] == a[0] && all[1] == a[1]);
        }
        if all == b {
            assert(all[0] == b[0] && all[1] == b[1] && all[2] == b[2]);
        }
    }
    one || two || three
}

/// What stands in place of the function that spawns a task.
pub fn spawn_with_ctx_path() -> (r: &'static str)
    ensures
        r@ == "::replay_core::spawn_with_ctx"@,
{
    "::replay_core::spawn_with_ctx"
}

// ---------------------------------------------------------------------------
// Laws
// ---------------------------------------------------------------------------

/// A method that is not `async` is never touched.
pub proof fn lemma_sync_method_unchanged(f: FnView)
    requires
        !f.is_async,
    ensures
        expanded_method(f) == f.whole,
{
}

/// A trait is kept as it is, in front of what is generated for it.
pub proof fn lemma_trait_is_kept(t: TraitView)
    ensures
        text::has_prefix(expanded_trait(t), t.whole),
{
    let all = expanded_trait(t);
    assert(all.subrange(0, t.whole.len() as int) =~= t.whole);
}

} // verus!
