//! What generated code does, read off its text.
use crate::expand;
use crate::expand::{FnParam, FnView, ImplPart, TraitPart, TraitView};
use crate::text;
use vstd::prelude::*;
use vstd::string::*;

verus! {

proof fn lemma_at_end(a: Seq<char>, p: Seq<char>)
    ensures
        text::has_text(a + p, p),
{
    text::lemma_has_text_between(a, p, Seq::empty());
    assert(a + p + Seq::<char>::empty() =~= a + p);
}

proof fn lemma_more(s: Seq<char>, t: Seq<char>, p: Seq<char>)
    requires
        text::has_text(s, p),
    ensures
        text::has_text(s + t, p),
{
    text::lemma_has_text_around(Seq::empty(), s, t, p);
    assert(Seq::<char>::empty() + s + t =~= s + t);
}

/// The text of an instrumented function up to its choice of mode.
spec fn opening(vis: Seq<char>, sig: Seq<char>, name: Seq<char>) -> Seq<char> {
    vis + " "@ + sig
        + " { let __fp = { let mut s = ::std::module_path!().to_string(); s.push_str(\"::\"); s.push_str(\""@
        + name + "\"); s }; "@
}

// ---------------------------------------------------------------------------
// Instrumented functions
// ---------------------------------------------------------------------------

/// The stretches of the text of an instrumented function that the laws below
/// speak of.
proof fn lemma_stretches(
    vis: Seq<char>,
    sig: Seq<char>,
    name: Seq<char>,
    args: Seq<Seq<char>>,
    output: Seq<char>,
    body: Seq<char>,
)
    ensures
        text::has_text(
            expand::instrumented(vis, sig, name, args, output, body),
            "{ Some(::replay_core::ReplayMode::Replay) => { let __slot = __slot.unwrap(); match ::replay_core::replay_fn_call(&__slot).await"@,
        ),
        text::has_text(
            expand::instrumented(vis, sig, name, args, output, body),
            "let __slot = ::replay_core::next_interaction_slot( ::replay_core::CallType::Function, __fp.clone(), ); match __slot.as_ref().map(|s| &s.mode) "@
                + "{ Some(::replay_core::ReplayMode::Replay) => { let __slot = __slot.unwrap(); match ::replay_core::replay_fn_call(&__slot).await"@
                + " { Some(__val) => { ::serde_json::from_value::<"@ + output
                + ">(__val).unwrap_or_else(|e| panic!( \"ditto: failed to deserialize stored return value for `{}`: {e}\", \""@
                + name + "\" )) } None => { "@ + body
                + " } } } _ => { let __request: ::serde_json::Value = { let mut __m = ::serde_json::Map::new(); "@,
        ),
        text::has_text(
            expand::instrumented(vis, sig, name, args, output, body),
            "\" )) } None => { "@ + body
                + " } } } _ => { let __request: ::serde_json::Value = { let mut __m = ::serde_json::Map::new(); "@,
        ),
        text::has_text(
            expand::instrumented(vis, sig, name, args, output, body),
            output + " = { "@ + body + " }; "@,
        ),
{
    let s0 = opening(vis, sig, name);
    let t0 =
        "let __slot = ::replay_core::next_interaction_slot( ::replay_core::CallType::Function, __fp.clone(), ); match __slot.as_ref().map(|s| &s.mode) "@;
    let s1 = s0 + t0;
    let t1 =
        "{ Some(::replay_core::ReplayMode::Replay) => { let __slot = __slot.unwrap(); match ::replay_core::replay_fn_call(&__slot).await"@;
    let s2 = s1 + t1;
    let t2 = " { Some(__val) => { ::serde_json::from_value::<"@;
    let s3 = s2 + t2;
    let t3 = output;
    let s4 = s3 + t3;
    let t4 =
        ">(__val).unwrap_or_else(|e| panic!( \"ditto: failed to deserialize stored return value for `{}`: {e}\", \""@;
    let s5 = s4 + t4;
    let t5 = name;
    let s6 = s5 + t5;
    let t6 = "\" )) } None => { "@;
    let s7 = s6 + t6;
    let t7 = body;
    let s8 = s7 + t7;
    let t8 =
        " } } } _ => { let __request: ::serde_json::Value = { let mut __m = ::serde_json::Map::new(); "@;
    let s9 = s8 + t8;
    let t9 = expand::arguments_text(args, args.len() as int);
    let s10 = s9 + t9;
    let t10 =
        "::serde_json::Value::Object(__m) }; let __start = ::std::time::Instant::now(); let __result: "@;
    let s11 = s10 + t10;
    let t11 = output;
    let s12 = s11 + t11;
    let t12 = " = { "@;
    let s13 = s12 + t12;
    let t13 = body;
    let s14 = s13 + t13;
    let t14 = " }; "@;
    let s15 = s14 + t14;
    let t15 =
        "if let Some(__slot) = __slot { if matches!( __slot.mode, ::replay_core::ReplayMode::Record | ::replay_core::ReplayMode::Shadow ) { let __response = ::serde_json::to_value(&__result).unwrap_or(::serde_json::Value::Null); let __ms = __start.elapsed().as_millis() as u64; ::replay_core::record_fn_call( __slot, __request, __response, __ms, ).await; } }"@;
    let s16 = s15 + t15;
    let t16 = " __result } } }"@;
    let s17 = s16 + t16;
    assert(s17 == expand::instrumented(vis, sig, name, args, output, body));
    let p1 = t1;
    lemma_at_end(s1, p1);
    lemma_more(s2, t2, p1);
    lemma_more(s3, t3, p1);
    lemma_more(s4, t4, p1);
    lemma_more(s5, t5, p1);
    lemma_more(s6, t6, p1);
    lemma_more(s7, t7, p1);
    lemma_more(s8, t8, p1);
    lemma_more(s9, t9, p1);
    lemma_more(s10, t10, p1);
    lemma_more(s11, t11, p1);
    lemma_more(s12, t12, p1);
    lemma_more(s13, t13, p1);
    lemma_more(s14, t14, p1);
    lemma_more(s15, t15, p1);
    lemma_more(s16, t16, p1);
    let q0 = t0;
    let q1 = q0 + t1;
    text::lemma_grouped(s0, q0, t1);
    let q2 = q1 + t2;
    text::lemma_grouped(s0, q1, t2);
    let q3 = q2 + t3;
    text::lemma_grouped(s0, q2, t3);
    let q4 = q3 + t4;
    text::lemma_grouped(s0, q3, t4);
    let q5 = q4 + t5;
    text::lemma_grouped(s0, q4, t5);
    let q6 = q5 + t6;
    text::lemma_grouped(s0, q5, t6);
    let q7 = q6 + t7;
    text::lemma_grouped(s0, q6, t7);
    let q8 = q7 + t8;
    text::lemma_grouped(s0, q7, t8);
    lemma_at_end(s0, q8);
    lemma_more(s9, t9, q8);
    lemma_more(s10, t10, q8);
    lemma_more(s11, t11, q8);
    lemma_more(s12, t12, q8);
    lemma_more(s13, t13, q8);
    lemma_more(s14, t14, q8);
    lemma_more(s15, t15, q8);
    lemma_more(s16, t16, q8);
    let r6 = t6;
    let r7 = r6 + t7;
    text::lemma_grouped(s6, r6, t7);
    let r8 = r7 + t8;
    text::lemma_grouped(s6, r7, t8);
    lemma_at_end(s6, r8);
    lemma_more(s9, t9, r8);
    lemma_more(s10, t10, r8);
    lemma_more(s11, t11, r8);
    lemma_more(s12, t12, r8);
    lemma_more(s13, t13, r8);
    lemma_more(s14, t14, r8);
    lemma_more(s15, t15, r8);
    lemma_more(s16, t16, r8);
    let u11 = t11;
    let u12 = u11 + t12;
    text::lemma_grouped(s11, u11, t12);
    let u13 = u12 + t13;
    text::lemma_grouped(s11, u12, t13);
    let u14 = u13 + t14;
    text::lemma_grouped(s11, u13, t14);
    lemma_at_end(s11, u14);
    lemma_more(s15, t15, u14);
    lemma_more(s16, t16, u14);
}

/// An instrumented function keeps its visibility and its signature, and takes
/// its slot under its module path and its own name.
pub proof fn lemma_slot_is_named_after_the_function(
    vis: Seq<char>,
    sig: Seq<char>,
    name: Seq<char>,
    args: Seq<Seq<char>>,
    output: Seq<char>,
    body: Seq<char>,
)
    ensures
        text::has_prefix(
            expand::instrumented(vis, sig, name, args, output, body),
            vis + " "@ + sig
                + " { let __fp = { let mut s = ::std::module_path!().to_string(); s.push_str(\"::\"); s.push_str(\""@
                + name + "\"); s }; "@
                + "let __slot = ::replay_core::next_interaction_slot( ::replay_core::CallType::Function, __fp.clone(), ); match __slot.as_ref().map(|s| &s.mode) "@,
        ),
{
    let head = vis + " "@ + sig
        + " { let __fp = { let mut s = ::std::module_path!().to_string(); s.push_str(\"::\"); s.push_str(\""@
        + name + "\"); s }; "@
        + "let __slot = ::replay_core::next_interaction_slot( ::replay_core::CallType::Function, __fp.clone(), ); match __slot.as_ref().map(|s| &s.mode) "@;
    let all = expand::instrumented(vis, sig, name, args, output, body);
    assert(all.subrange(0, head.len() as int) =~= head);
}

/// In replay, and in no other mode, an instrumented function asks for the
/// stored call, and reads what is stored as the type that it returns.
pub proof fn lemma_only_replay_reads_the_store(
    vis: Seq<char>,
    sig: Seq<char>,
    name: Seq<char>,
    args: Seq<Seq<char>>,
    output: Seq<char>,
    body: Seq<char>,
)
    ensures
        text::has_text(
            expand::instrumented(vis, sig, name, args, output, body),
            "{ Some(::replay_core::ReplayMode::Replay) => { let __slot = __slot.unwrap(); match ::replay_core::replay_fn_call(&__slot).await"@,
        ),
        text::has_text(
            expand::instrumented(vis, sig, name, args, output, body),
            "let __slot = ::replay_core::next_interaction_slot( ::replay_core::CallType::Function, __fp.clone(), ); match __slot.as_ref().map(|s| &s.mode) "@
                + "{ Some(::replay_core::ReplayMode::Replay) => { let __slot = __slot.unwrap(); match ::replay_core::replay_fn_call(&__slot).await"@
                + " { Some(__val) => { ::serde_json::from_value::<"@ + output
                + ">(__val).unwrap_or_else(|e| panic!( \"ditto: failed to deserialize stored return value for `{}`: {e}\", \""@
                + name + "\" )) } None => { "@ + body
                + " } } } _ => { let __request: ::serde_json::Value = { let mut __m = ::serde_json::Map::new(); "@,
        ),
{
    lemma_stretches(vis, sig, name, args, output, body);
}

/// In every other mode an instrumented function runs its body, and it records
/// the result when recording or shadowing and in no other mode; the result is
/// what it returns.
pub proof fn lemma_only_record_and_shadow_write_the_store(
    vis: Seq<char>,
    sig: Seq<char>,
    name: Seq<char>,
    args: Seq<Seq<char>>,
    output: Seq<char>,
    body: Seq<char>,
)
    ensures
        text::has_text(
            expand::instrumented(vis, sig, name, args, output, body),
            "if let Some(__slot) = __slot { if matches!( __slot.mode, ::replay_core::ReplayMode::Record | ::replay_core::ReplayMode::Shadow ) { let __response = ::serde_json::to_value(&__result).unwrap_or(::serde_json::Value::Null); let __ms = __start.elapsed().as_millis() as u64; ::replay_core::record_fn_call( __slot, __request, __response, __ms, ).await; } }"@,
        ),
        text::has_suffix(
            expand::instrumented(vis, sig, name, args, output, body),
            "::serde_json::Value::Object(__m) }; let __start = ::std::time::Instant::now(); let __result: "@
                + output + " = { "@ + body + " }; "@
                + "if let Some(__slot) = __slot { if matches!( __slot.mode, ::replay_core::ReplayMode::Record | ::replay_core::ReplayMode::Shadow ) { let __response = ::serde_json::to_value(&__result).unwrap_or(::serde_json::Value::Null); let __ms = __start.elapsed().as_millis() as u64; ::replay_core::record_fn_call( __slot, __request, __response, __ms, ).await; } }"@
                + " __result } } }"@,
        ),
{
    let record =
        "if let Some(__slot) = __slot { if matches!( __slot.mode, ::replay_core::ReplayMode::Record | ::replay_core::ReplayMode::Shadow ) { let __response = ::serde_json::to_value(&__result).unwrap_or(::serde_json::Value::Null); let __ms = __start.elapsed().as_millis() as u64; ::replay_core::record_fn_call( __slot, __request, __response, __ms, ).await; } }"@;
    let run =
        "::serde_json::Value::Object(__m) }; let __start = ::std::time::Instant::now(); let __result: "@
        + output + " = { "@ + body + " }; "@;
    let tail = run + record + " __result } } }"@;
    let all = expand::instrumented(vis, sig, name, args, output, body);
    assert(all.subrange(all.len() - tail.len(), all.len() as int) =~= tail);
    let head = all.take(all.len() - tail.len());
    assert(all =~= (head + run) + record + " __result } } }"@);
    text::lemma_has_text_between(head + run, record, " __result } } }"@);
}

proof fn lemma_argument_in(args: Seq<Seq<char>>, k: int, i: int)
    requires
        0 <= i < k <= args.len(),
    ensures
        text::has_text(expand::arguments_text(args, k), expand::argument_text(args[i])),
    decreases k,
{
    let before = expand::arguments_text(args, k - 1);
    let last = expand::argument_text(args[k - 1]);
    if i == k - 1 {
        lemma_at_end(before, last);
    } else {
        lemma_argument_in(args, k - 1, i);
        lemma_more(before, last, expand::argument_text(args[i]));
    }
}

/// Each named argument goes into the recorded request under its own name: its
/// JSON form, or its debug text if it has none.
pub proof fn lemma_each_argument_is_recorded(
    vis: Seq<char>,
    sig: Seq<char>,
    name: Seq<char>,
    args: Seq<Seq<char>>,
    output: Seq<char>,
    body: Seq<char>,
    i: int,
)
    requires
        0 <= i < args.len(),
    ensures
        text::has_text(
            expand::instrumented(vis, sig, name, args, output, body),
            "{ let __v = ::serde_json::to_value(&"@ + args[i]
                + ").unwrap_or_else(|_| ::serde_json::Value::String(format!(\"{:?}\", &"@ + args[i]
                + "))); __m.insert(\""@ + args[i] + "\".to_string(), __v); } "@,
        ),
{
    let recorded = expand::arguments_text(args, args.len() as int);
    let p = "{ let __v = ::serde_json::to_value(&"@ + args[i]
        + ").unwrap_or_else(|_| ::serde_json::Value::String(format!(\"{:?}\", &"@ + args[i]
        + "))); __m.insert(\""@ + args[i] + "\".to_string(), __v); } "@;
    lemma_argument_in(args, args.len() as int, i);
    assert(p == expand::argument_text(args[i]));
    let tail =
        "::serde_json::Value::Object(__m) }; let __start = ::std::time::Instant::now(); let __result: "@
        + output + " = { "@ + body + " }; "@
        + "if let Some(__slot) = __slot { if matches!( __slot.mode, ::replay_core::ReplayMode::Record | ::replay_core::ReplayMode::Shadow ) { let __response = ::serde_json::to_value(&__result).unwrap_or(::serde_json::Value::Null); let __ms = __start.elapsed().as_millis() as u64; ::replay_core::record_fn_call( __slot, __request, __response, __ms, ).await; } }"@
        + " __result } } }"@;
    let all = expand::instrumented(vis, sig, name, args, output, body);
    let head = all.take(all.len() - tail.len() - recorded.len());
    assert(all =~= head + recorded + tail);
    text::lemma_has_text_around(head, recorded, tail, p);
}

/// Only plain names become entries of the recorded request, in their order:
/// the names of two lists of parameters are those of the first and then those
/// of the second; the receiver and patterns give none.
pub proof fn lemma_names_of_parameters(a: Seq<FnParam>, b: Seq<FnParam>, name: String)
    ensures
        expand::named_params(a + b) == expand::named_params(a) + expand::named_params(b),
        expand::named_params(seq![FnParam::Named(name)]) == seq![name@],
        expand::named_params(seq![FnParam::Receiver]) == Seq::<Seq<char>>::empty(),
        expand::named_params(seq![FnParam::Pattern]) == Seq::<Seq<char>>::empty(),
    decreases b.len(),
{
    let none = Seq::<FnParam>::empty();
    assert(seq![FnParam::Named(name)].drop_last() =~= none);
    assert(seq![FnParam::Receiver].drop_last() =~= none);
    assert(seq![FnParam::Pattern].drop_last() =~= none);
    assert(expand::named_params(none) == Seq::<Seq<char>>::empty());
    assert(expand::named_params(seq![FnParam::Named(name)]) =~= seq![name@]);
    if b.len() == 0 {
        assert(a + b =~= a);
        assert(expand::named_params(a) + expand::named_params(b) =~= expand::named_params(a));
    } else {
        lemma_names_of_parameters(a, b.drop_last(), name);
        assert((a + b).drop_last() =~= a + b.drop_last());
        assert(expand::named_params(a + b) =~= expand::named_params(a) + expand::named_params(b));
    }
}

/// An `async` method is instrumented around its own block: the block is what
/// runs when nothing is stored.
pub proof fn lemma_async_method_runs_its_block(f: FnView)
    requires
        f.is_async,
    ensures
        text::has_text(
            expand::expanded_method(f),
            "{ Some(::replay_core::ReplayMode::Replay) => { let __slot = __slot.unwrap(); match ::replay_core::replay_fn_call(&__slot).await"@,
        ),
        text::has_prefix(expand::expanded_method(f), f.vis + " "@ + f.sig),
        text::has_text(
            expand::expanded_method(f),
            "\" )) } None => { "@ + f.block
                + " } } } _ => { let __request: ::serde_json::Value = { let mut __m = ::serde_json::Map::new(); "@,
        ),
        text::has_text(expand::expanded_method(f), f.output + " = { "@ + f.block + " }; "@),
{
    let all = expand::instrumented(f.vis, f.sig, f.name, f.args, f.output, f.block);
    lemma_stretches(f.vis, f.sig, f.name, f.args, f.output, f.block);
    let head = f.vis + " "@ + f.sig;
    assert(all.subrange(0, head.len() as int) =~= head);
}

proof fn lemma_part_in(items: Seq<ImplPart>, k: int, i: int, p: Seq<char>)
    requires
        0 <= i < k <= items.len(),
        text::has_text(expand::expanded_part(items[i]), p),
    ensures
        text::has_text(expand::expanded_parts(items, k), p),
    decreases k,
{
    let before = expand::expanded_parts(items, k - 1);
    let last = expand::expanded_part(items[k - 1]);
    if i == k - 1 {
        text::lemma_has_text_around(before, last, " "@, p);
    } else {
        lemma_part_in(items, k - 1, i, p);
        lemma_more(before, last, p);
        lemma_more(before + last, " "@, p);
    }
}

/// In an `impl` block every `async` method asks the store in replay, and every
/// other item stands as it was.
pub proof fn lemma_every_method_is_covered(items: Seq<ImplPart>, i: int)
    requires
        0 <= i < items.len(),
    ensures
        items[i] matches ImplPart::Method(f) ==> (f@.is_async ==> text::has_text(
            expand::expanded_parts(items, items.len() as int),
            "{ Some(::replay_core::ReplayMode::Replay) => { let __slot = __slot.unwrap(); match ::replay_core::replay_fn_call(&__slot).await"@,
        )),
        items[i] matches ImplPart::Method(f) ==> (!f@.is_async ==> text::has_text(
            expand::expanded_parts(items, items.len() as int),
            f@.whole,
        )),
        items[i] matches ImplPart::Other(s) ==> text::has_text(
            expand::expanded_parts(items, items.len() as int),
            s@,
        ),
{
    let n = items.len() as int;
    let none = Seq::<char>::empty();
    match items[i] {
        ImplPart::Method(f) => {
            if f@.is_async {
                lemma_async_method_runs_its_block(f@);
                lemma_part_in(
                    items,
                    n,
                    i,
                    "{ Some(::replay_core::ReplayMode::Replay) => { let __slot = __slot.unwrap(); match ::replay_core::replay_fn_call(&__slot).await"@,
                );
            } else {
                lemma_at_end(none, f@.whole);
                assert(none + f@.whole =~= f@.whole);
                lemma_part_in(items, n, i, f@.whole);
            }
        },
        ImplPart::Other(s) => {
            lemma_at_end(none, s@);
            assert(none + s@ =~= s@);
            lemma_part_in(items, n, i, s@);
        },
    }
}

// ---------------------------------------------------------------------------
// Wrappers of traits
// ---------------------------------------------------------------------------

/// The method of a wrapper calls the method of the same name on the wrapped
/// value, with the arguments it was given, in their order. An `async` one
/// awaits the call; any other is the call alone.
pub proof fn lemma_wrapper_calls_the_wrapped_value(f: FnView)
    ensures
        f.is_async ==> text::has_text(
            expand::wrapper_method(f),
            f.output + " = { "@ + ("self.0."@ + f.name + "("@ + text::join_with(f.args, ", "@)
                + ")"@ + ".await"@) + " }; "@,
        ),
        f.is_async ==> text::has_text(
            expand::wrapper_method(f),
            "\" )) } None => { "@ + ("self.0."@ + f.name + "("@ + text::join_with(f.args, ", "@)
                + ")"@ + ".await"@)
                + " } } } _ => { let __request: ::serde_json::Value = { let mut __m = ::serde_json::Map::new(); "@,
        ),
        f.is_async ==> text::has_text(
            expand::wrapper_method(f),
            "{ Some(::replay_core::ReplayMode::Replay) => { let __slot = __slot.unwrap(); match ::replay_core::replay_fn_call(&__slot).await"@,
        ),
        !f.is_async ==> expand::wrapper_method(f) == f.sig + " { "@ + ("self.0."@ + f.name + "("@
            + text::join_with(f.args, ", "@) + ")"@) + " }"@,
        text::has_text(expand::wrapper_method(f), f.sig),
{
    if f.is_async {
        let call = "self.0."@ + f.name + "("@ + text::join_with(f.args, ", "@) + ")"@ + ".await"@;
        let g = FnView { vis: ""@, block: call, ..f };
        lemma_async_method_runs_its_block(g);
        assert(expand::expanded_method(g) == expand::wrapper_method(f));
        let all = expand::wrapper_method(f);
        let head = ""@ + " "@;
        let tail = all.skip((head.len() + f.sig.len()) as int);
        assert(all.subrange(0, (head.len() + f.sig.len()) as int) =~= head + f.sig);
        assert(all =~= head + f.sig + tail);
        text::lemma_has_text_between(head, f.sig, tail);
    } else {
        let tail = " { "@ + expand::delegation(f) + " }"@;
        text::lemma_has_text_between(Seq::empty(), f.sig, tail);
        assert(Seq::<char>::empty() + f.sig + tail =~= expand::wrapper_method(f));
    }
}

proof fn lemma_wrapper_parts(items: Seq<TraitPart>, k: int, i: int, p: Seq<char>)
    requires
        0 <= i < k <= items.len(),
    ensures
        (items[i] matches TraitPart::Method(f) && text::has_text(expand::wrapper_method(f@), p))
            ==> text::has_text(expand::wrapper_methods(items, k), p),
        items[i] matches TraitPart::Type(n) ==> text::has_text(
            expand::assoc_types(items, k),
            "type "@ + n@ + " = T::"@ + n@ + "; "@,
        ),
        items[i] matches TraitPart::Const(n, ty) ==> text::has_text(
            expand::assoc_consts(items, k),
            "const "@ + n@ + ": "@ + ty@ + " = T::"@ + n@ + "; "@,
        ),
    decreases k,
{
    let methods = expand::wrapper_methods(items, k - 1);
    let types = expand::assoc_types(items, k - 1);
    let consts = expand::assoc_consts(items, k - 1);
    if i < k - 1 {
        lemma_wrapper_parts(items, k - 1, i, p);
    }
    match items[k - 1] {
        TraitPart::Method(f) => {
            let m = expand::wrapper_method(f@);
            if i == k - 1 {
                if text::has_text(m, p) {
                    text::lemma_has_text_around(methods, m, " "@, p);
                }
            } else if text::has_text(methods, p) {
                lemma_more(methods, m, p);
                lemma_more(methods + m, " "@, p);
            }
        },
        TraitPart::Type(n) => {
            let d = "type "@ + n@ + " = T::"@ + n@ + "; "@;
            assert(expand::assoc_types(items, k) =~= types + d);
            if i == k - 1 {
                lemma_at_end(types, d);
            } else if let TraitPart::Type(m) = items[i] {
                lemma_more(types, d, "type "@ + m@ + " = T::"@ + m@ + "; "@);
            }
        },
        TraitPart::Const(n, ty) => {
            let d = "const "@ + n@ + ": "@ + ty@ + " = T::"@ + n@ + "; "@;
            assert(expand::assoc_consts(items, k) =~= consts + d);
            if i == k - 1 {
                lemma_at_end(consts, d);
            } else if let TraitPart::Const(m, t) = items[i] {
                lemma_more(consts, d, "const "@ + m@ + ": "@ + t@ + " = T::"@ + m@ + "; "@);
            }
        },
        TraitPart::Other => {},
    }
}

/// The wrapper of a trait has each associated type and constant of the wrapped
/// type, and each method of the trait.
pub proof fn lemma_wrapper_has_every_item(t: TraitView, i: int)
    requires
        0 <= i < t.items.len(),
    ensures
        t.items[i] matches TraitPart::Type(n) ==> text::has_text(
            expand::expanded_trait(t),
            "type "@ + n@ + " = T::"@ + n@ + "; "@,
        ),
        t.items[i] matches TraitPart::Const(n, ty) ==> text::has_text(
            expand::expanded_trait(t),
            "const "@ + n@ + ": "@ + ty@ + " = T::"@ + n@ + "; "@,
        ),
        t.items[i] matches TraitPart::Method(f) ==> text::has_text(
            expand::expanded_trait(t),
            f@.sig,
        ),
        t.items[i] matches TraitPart::Method(f) ==> (f@.is_async ==> text::has_text(
            expand::expanded_trait(t),
            "{ Some(::replay_core::ReplayMode::Replay) => { let __slot = __slot.unwrap(); match ::replay_core::replay_fn_call(&__slot).await"@,
        )),
        t.items[i] matches TraitPart::Method(f) ==> (f@.is_async ==> text::has_text(
            expand::expanded_trait(t),
            f@.output + " = { "@ + ("self.0."@ + f@.name + "("@ + text::join_with(f@.args, ", "@)
                + ")"@ + ".await"@) + " }; "@,
        )),
        t.items[i] matches TraitPart::Method(f) ==> (!f@.is_async ==> text::has_text(
            expand::expanded_trait(t),
            f@.sig + " { "@ + ("self.0."@ + f@.name + "("@ + text::join_with(f@.args, ", "@) + ")"@)
                + " }"@,
        )),
{
    let n = t.items.len() as int;
    let types = expand::assoc_types(t.items, n);
    let consts = expand::assoc_consts(t.items, n);
    let methods = expand::wrapper_methods(t.items, n);
    let all = expand::expanded_trait(t);
    let head = all.take(all.len() - 1 - types.len() - consts.len() - methods.len());
    reveal_strlit("}");
    assert(all =~= head + types + (consts + methods + "}"@));
    assert(all =~= (head + types) + consts + (methods + "}"@));
    assert(all =~= (head + types + consts) + methods + "}"@);
    match t.items[i] {
        TraitPart::Type(m) => {
            let d = "type "@ + m@ + " = T::"@ + m@ + "; "@;
            lemma_wrapper_parts(t.items, n, i, d);
            text::lemma_has_text_around(head, types, consts + methods + "}"@, d);
        },
        TraitPart::Const(m, ty) => {
            let d = "const "@ + m@ + ": "@ + ty@ + " = T::"@ + m@ + "; "@;
            lemma_wrapper_parts(t.items, n, i, d);
            text::lemma_has_text_around(head + types, consts, methods + "}"@, d);
        },
        TraitPart::Method(f) => {
            let replay =
                "{ Some(::replay_core::ReplayMode::Replay) => { let __slot = __slot.unwrap(); match ::replay_core::replay_fn_call(&__slot).await"@;
            let call = "self.0."@ + f@.name + "("@ + text::join_with(f@.args, ", "@) + ")"@;
            let run = f@.output + " = { "@ + (call + ".await"@) + " }; "@;
            let plain = f@.sig + " { "@ + call + " }"@;
            lemma_wrapper_calls_the_wrapped_value(f@);
            lemma_wrapper_parts(t.items, n, i, f@.sig);
            text::lemma_has_text_around(head + types + consts, methods, "}"@, f@.sig);
            if f@.is_async {
                lemma_wrapper_parts(t.items, n, i, replay);
                text::lemma_has_text_around(head + types + consts, methods, "}"@, replay);
                lemma_wrapper_parts(t.items, n, i, run);
                text::lemma_has_text_around(head + types + consts, methods, "}"@, run);
            } else {
                lemma_at_end(Seq::empty(), plain);
                assert(Seq::<char>::empty() + plain =~= plain);
                lemma_wrapper_parts(t.items, n, i, plain);
                text::lemma_has_text_around(head + types + consts, methods, "}"@, plain);
            }
        },
        TraitPart::Other => {},
    }
}

/// The wrapper of a trait without parameters is a public field of the wrapped
/// type, named after the trait, and has the trait whenever the wrapped type
/// has it.
pub proof fn lemma_wrapper_of_a_plain_trait(t: TraitView)
    requires
        t.param_names.len() == 0,
    ensures
        text::has_prefix(
            expand::expanded_trait(t),
            t.whole + " #[allow(dead_code)] "@ + t.vis + " struct "@ + "Replay"@ + t.name + "<T>"@
                + "(pub T)"@ + " where T: "@ + t.name + ", "@ + t.predicates + "; impl"@ + "<T>"@
                + " "@ + t.name + " for "@ + "Replay"@ + t.name + "<T>"@ + " where T: "@ + t.name
                + ", "@ + t.predicates + " { "@,
        ),
{
    let head = t.whole + " #[allow(dead_code)] "@ + t.vis + " struct "@ + "Replay"@ + t.name
        + "<T>"@ + "(pub T)"@ + " where T: "@ + t.name + ", "@ + t.predicates + "; impl"@ + "<T>"@
        + " "@ + t.name + " for "@ + "Replay"@ + t.name + "<T>"@ + " where T: "@ + t.name + ", "@
        + t.predicates + " { "@;
    let all = expand::expanded_trait(t);
    assert(all.subrange(0, head.len() as int) =~= head);
}

/// The wrapper of a trait with parameters has those parameters and the wrapped
/// type, and has the trait, with the same arguments, whenever the wrapped type
/// has it.
pub proof fn lemma_wrapper_of_a_generic_trait(t: TraitView)
    requires
        t.param_names.len() > 0,
    ensures
        ({
            let names = text::join_with(t.param_names, ", "@);
            let path = t.name + "<"@ + names + ">"@;
            text::has_prefix(
                expand::expanded_trait(t),
                t.whole + " #[allow(dead_code)] "@ + t.vis + " struct "@ + "Replay"@ + t.name
                    + "<"@ + t.params + ", T>"@ + "(pub T)"@ + " where T: "@ + path + ", "@
                    + t.predicates + "; impl"@ + "<"@ + t.params + ", T>"@ + " "@ + path + " for "@
                    + "Replay"@ + t.name + "<"@ + names + ", T>"@ + " where T: "@ + path + ", "@
                    + t.predicates + " { "@,
            )
        }),
{
    let names = text::join_with(t.param_names, ", "@);
    let path = t.name + "<"@ + names + ">"@;
    let head = t.whole + " #[allow(dead_code)] "@ + t.vis + " struct "@ + "Replay"@ + t.name
        + "<"@ + t.params + ", T>"@ + "(pub T)"@ + " where T: "@ + path + ", "@ + t.predicates
        + "; impl"@ + "<"@ + t.params + ", T>"@ + " "@ + path + " for "@ + "Replay"@ + t.name
        + "<"@ + names + ", T>"@ + " where T: "@ + path + ", "@ + t.predicates + " { "@;
    let all = expand::expanded_trait(t);
    assert(all.subrange(0, head.len() as int) =~= head);
}

/// A path of four segments or more, an empty one, and one whose last segment
/// is not `spawn` spawn nothing; nor does one that starts elsewhere than in
/// `tokio`, unless it is the bare `spawn`.
pub proof fn lemma_what_spawns(segments: Seq<Seq<char>>)
    ensures
        expand::spawn_path(segments) ==> 1 <= segments.len() <= 3 && segments.last() == "spawn"@,
        expand::spawn_path(segments) && segments.len() > 1 ==> segments[0] == "tokio"@,
        segments.len() == 1 && segments[0] == "spawn"@ ==> expand::spawn_path(segments),
        segments.len() == 2 && segments[0] == "tokio"@ && segments[1] == "spawn"@
            ==> expand::spawn_path(segments),
        segments.len() == 3 ==> (expand::spawn_path(segments) <==> segments[0] == "tokio"@
            && segments[1] == "task"@ && segments[2] == "spawn"@),
{
    let a = seq!["spawn"@];
    let b = seq!["tokio"@, "spawn"@];
    let c = seq!["tokio"@, "task"@, "spawn"@];
    if segments.len() == 1 && segments[0] == "spawn"@ {
        assert(segments =~= a);
    }
    if segments.len() == 2 && segments[0] == "tokio"@ && segments[1] == "spawn"@ {
        assert(segments =~= b);
    }
    if segments.len() == 3 && segments[0] == "tokio"@ && segments[1] == "task"@ && segments[2]
        == "spawn"@ {
        assert(segments =~= c);
    }
    assert(a.len() == 1 && b.len() == 2 && c.len() == 3);
}

/// A function without a return type returns the unit type; any other type is
/// taken as it is written.
pub proof fn lemma_type_that_is_returned(t: String)
    ensures
        expand::output_text(None) == "()"@,
        expand::output_text(Some(t)) == t@,
{
}

} // verus!
