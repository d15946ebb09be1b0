//! One-line Rust renderings of item signatures and types from the rustdoc
//! index.

use vstd::prelude::*;
use crate::model::{FnDecl, GenericArg, GenericArgs, GenericParam, Inner, Item, ItemKind, ParamKind, Ty};
use crate::text::{append_chars, chars_of, join, join_chars, string_of, views};

verus! {

/// Appends the characters of `s` to `out`.
pub fn push_str(out: &mut Vec<char>, s: &str)
    ensures
        final(out)@ == old(out)@ + s@,
{
    let c = chars_of(s);
    append_chars(out, &c);
}

/// How a type is written.
pub open spec fn render_ty(t: Ty) -> Seq<char>
    decreases t,
{
    match t {
        Ty::ResolvedPath { path, args, .. } => path@ + match args {
            Some(a) => render_args_text(*a),
            None => seq![],
        },
        Ty::Generic(n) => n@,
        Ty::Primitive(n) => n@,
        Ty::Tuple(ts) => "("@ + join(render_tys(ts@), ", "@) + (if ts@.len() == 1 {
            ","@
        } else {
            seq![]
        }) + ")"@,
        Ty::Slice(inner) => "["@ + render_ty(*inner) + "]"@,
        Ty::Array { ty, len } => "["@ + render_ty(*ty) + "; "@ + len@ + "]"@,
        Ty::RawPointer { is_mutable, ty } => "*"@ + (if is_mutable {
            "mut"@
        } else {
            "const"@
        }) + " "@ + render_ty(*ty),
        Ty::BorrowedRef { lifetime, is_mutable, ty } => "&"@ + match lifetime {
            Some(l) => l@ + " "@,
            None => seq![],
        } + (if is_mutable {
            "mut "@
        } else {
            seq![]
        }) + render_ty(*ty),
        Ty::ImplTrait => "impl Trait"@,
        Ty::DynTrait => "dyn Trait"@,
        Ty::FunctionPointer { inputs, output } => "fn("@ + join(render_tys(inputs@), ", "@) + ")"@
            + match output {
            Some(o) => " -> "@ + render_ty(*o),
            None => seq![],
        },
        Ty::QualifiedPath { name, self_type } => render_ty(*self_type) + "::"@ + name@,
        Ty::Infer => "_"@,
        Ty::Pat(inner) => render_ty(*inner),
    }
}

/// How each of a sequence of types is written.
pub open spec fn render_tys(ts: Seq<Ty>) -> Seq<Seq<char>>
    decreases ts,
{
    if ts.len() == 0 {
        seq![]
    } else {
        render_tys(ts.drop_last()).push(render_ty(ts.last()))
    }
}

/// How generic arguments are written.
pub open spec fn render_args_text(a: GenericArgs) -> Seq<char>
    decreases a,
{
    match a {
        GenericArgs::AngleBracketed(args) => "<"@ + join(render_arg_list(args@), ", "@) + ">"@,
        GenericArgs::Parenthesized { inputs, output } => "("@ + join(render_tys(inputs@), ", "@)
            + ")"@ + match output {
            Some(o) => " -> "@ + render_ty(*o),
            None => seq![],
        },
        GenericArgs::ReturnTypeNotation => "(..)"@,
    }
}

/// How each of a sequence of generic arguments is written.
pub open spec fn render_arg_list(gs: Seq<GenericArg>) -> Seq<Seq<char>>
    decreases gs,
{
    if gs.len() == 0 {
        seq![]
    } else {
        render_arg_list(gs.drop_last()).push(
            match gs.last() {
                GenericArg::Lifetime(v) => v@,
                GenericArg::Type(t) => render_ty(t),
                GenericArg::Const(e) => e@,
                GenericArg::Infer => "_"@,
            },
        )
    }
}

/// Writes a sequence of types, one text each.
fn render_type_list(ts: &Vec<Ty>) -> (out: Vec<Vec<char>>)
    ensures
        views(out@) == render_tys(ts@),
    decreases ts,
{
    let mut out: Vec<Vec<char>> = Vec::new();
    for i in 0..ts.len()
        invariant
            views(out@) == render_tys(ts@.take(i as int)),
    {
        proof {
            assert(decreases_to!(ts => ts@));
            assert(decreases_to!(ts@ => ts@[i as int]));
        }
        let r = render_type(&ts[i]);
        let ghost prev = views(out@);
        out.push(r);
        assert(ts@.take(i + 1).drop_last() =~= ts@.take(i as int));
        assert(views(out@) =~= prev.push(r@));
    }
    assert(ts@.take(ts@.len() as int) =~= ts@);
    out
}

/// Writes `", "`-separated texts.
fn push_joined(out: &mut Vec<char>, parts: &Vec<Vec<char>>)
    ensures
        final(out)@ == old(out)@ + join(views(parts@), ", "@),
{
    let sep = chars_of(", ");
    let j = join_chars(parts, &sep);
    append_chars(out, &j);
}

/// Writes a type.
pub fn render_type(ty: &Ty) -> (out: Vec<char>)
    ensures
        out@ == render_ty(*ty),
    decreases ty,
{
    let mut out: Vec<char> = Vec::new();
    match ty {
        Ty::ResolvedPath { path, args, .. } => {
            push_str(&mut out, path.as_str());
            if let Some(a) = args {
                let r = render_args(a);
                append_chars(&mut out, &r);
            }
        },
        Ty::Generic(n) => push_str(&mut out, n.as_str()),
        Ty::Primitive(n) => push_str(&mut out, n.as_str()),
        Ty::Tuple(ts) => {
            push_str(&mut out, "(");
            let parts = render_type_list(ts);
            push_joined(&mut out, &parts);
            if ts.len() == 1 {
                push_str(&mut out, ",");
            }
            push_str(&mut out, ")");
        },
        Ty::Slice(inner) => {
            push_str(&mut out, "[");
            let r = render_type(inner);
            append_chars(&mut out, &r);
            push_str(&mut out, "]");
        },
        Ty::Array { ty: inner, len } => {
            push_str(&mut out, "[");
            let r = render_type(inner);
            append_chars(&mut out, &r);
            push_str(&mut out, "; ");
            push_str(&mut out, len.as_str());
            push_str(&mut out, "]");
        },
        Ty::RawPointer { is_mutable, ty: inner } => {
            push_str(&mut out, "*");
            if *is_mutable {
                push_str(&mut out, "mut");
            } else {
                push_str(&mut out, "const");
            }
            push_str(&mut out, " ");
            let r = render_type(inner);
            append_chars(&mut out, &r);
        },
        Ty::BorrowedRef { lifetime, is_mutable, ty: inner } => {
            push_str(&mut out, "&");
            if let Some(l) = lifetime {
                push_str(&mut out, l.as_str());
                push_str(&mut out, " ");
            }
            if *is_mutable {
                push_str(&mut out, "mut ");
            }
            let r = render_type(inner);
            append_chars(&mut out, &r);
        },
        Ty::ImplTrait => push_str(&mut out, "impl Trait"),
        Ty::DynTrait => push_str(&mut out, "dyn Trait"),
        Ty::FunctionPointer { inputs, output } => {
            push_str(&mut out, "fn(");
            let parts = render_type_list(inputs);
            push_joined(&mut out, &parts);
            push_str(&mut out, ")");
            if let Some(o) = output {
                push_str(&mut out, " -> ");
                let r = render_type(o);
                append_chars(&mut out, &r);
            }
        },
        Ty::QualifiedPath { name, self_type } => {
            let r = render_type(self_type);
            append_chars(&mut out, &r);
            push_str(&mut out, "::");
            push_str(&mut out, name.as_str());
        },
        Ty::Infer => push_str(&mut out, "_"),
        Ty::Pat(inner) => {
            let r = render_type(inner);
            append_chars(&mut out, &r);
        },
    }
    out
}

/// Writes each generic argument.
fn render_arg_texts(gs: &Vec<GenericArg>) -> (parts: Vec<Vec<char>>)
    ensures
        views(parts@) == render_arg_list(gs@),
    decreases gs,
{
    let mut parts: Vec<Vec<char>> = Vec::new();
    for i in 0..gs.len()
        invariant
            views(parts@) == render_arg_list(gs@.take(i as int)),
    {
        proof {
            assert(decreases_to!(gs => gs@));
            assert(decreases_to!(gs@ => gs@[i as int]));
        }
        let r = match &gs[i] {
            GenericArg::Lifetime(v) => chars_of(v.as_str()),
            GenericArg::Type(t) => {
                proof {
                    assert(decreases_to!(gs@[i as int] => *t));
                }
                render_type(t)
            },
            GenericArg::Const(e) => chars_of(e.as_str()),
            GenericArg::Infer => chars_of("_"),
        };
        let ghost prev = views(parts@);
        parts.push(r);
        assert(gs@.take(i + 1).drop_last() =~= gs@.take(i as int));
        assert(views(parts@) =~= prev.push(r@));
    }
    assert(gs@.take(gs@.len() as int) =~= gs@);
    parts
}

/// Writes generic arguments.
pub fn render_args(args: &GenericArgs) -> (out: Vec<char>)
    ensures
        out@ == render_args_text(*args),
    decreases args,
{
    let mut out: Vec<char> = Vec::new();
    match args {
        GenericArgs::AngleBracketed(gs) => {
            push_str(&mut out, "<");
            let parts = render_arg_texts(gs);
            push_joined(&mut out, &parts);
            push_str(&mut out, ">");
        },
        GenericArgs::Parenthesized { inputs, output } => {
            push_str(&mut out, "(");
            let parts = render_type_list(inputs);
            push_joined(&mut out, &parts);
            push_str(&mut out, ")");
            if let Some(o) = output {
                push_str(&mut out, " -> ");
                let r = render_type(o);
                append_chars(&mut out, &r);
            }
        },
        GenericArgs::ReturnTypeNotation => push_str(&mut out, "(..)"),
    }
    out
}

/// How a generic parameter appears in a signature; compiler-made ones do
/// not appear.
pub open spec fn param_text(p: GenericParam) -> Option<Seq<char>> {
    match p.kind {
        ParamKind::Synthetic => None,
        ParamKind::Const(t) => Some("const "@ + p.name@ + ": "@ + render_ty(t)),
        ParamKind::Named => Some(p.name@),
    }
}

/// The texts of the parameters that appear, in order.
pub open spec fn param_texts(ps: Seq<GenericParam>) -> Seq<Seq<char>>
    decreases ps.len(),
{
    if ps.len() == 0 {
        seq![]
    } else {
        let prev = param_texts(ps.drop_last());
        match param_text(ps.last()) {
            Some(t) => prev.push(t),
            None => prev,
        }
    }
}

/// How each function argument is written: `name: type`.
pub open spec fn input_texts(ins: Seq<(String, Ty)>) -> Seq<Seq<char>> {
    Seq::new(ins.len(), |i: int| ins[i].0@ + ": "@ + render_ty(ins[i].1))
}

/// The start of a function's signature: qualifiers, `fn` and the name.
pub open spec fn fn_head(name: Seq<char>, f: FnDecl) -> Seq<char> {
    "pub "@ + (if f.is_const {
        "const "@
    } else {
        seq![]
    }) + (if f.is_async {
        "async "@
    } else {
        seq![]
    }) + (if f.is_unsafe {
        "unsafe "@
    } else {
        seq![]
    }) + "fn "@ + name
}

/// The generic parameter list of a signature (nothing when none appear).
pub open spec fn fn_generics(f: FnDecl) -> Seq<char> {
    let ps = param_texts(f.params@);
    if ps.len() > 0 {
        "<"@ + join(ps, ", "@) + ">"@
    } else {
        seq![]
    }
}

/// The argument list of a signature, with its parentheses.
pub open spec fn fn_args(f: FnDecl) -> Seq<char> {
    let ins = input_texts(f.inputs@);
    "("@ + join(ins, ", "@) + (if f.is_c_variadic {
        (if ins.len() > 0 {
            ", "@
        } else {
            seq![]
        }) + "..."@
    } else {
        seq![]
    }) + ")"@
}

/// The return type of a signature (nothing for `()`).
pub open spec fn fn_output(f: FnDecl) -> Seq<char> {
    match f.output {
        Some(o) => " -> "@ + render_ty(o),
        None => seq![],
    }
}

/// A function's one-line signature.
pub open spec fn render_fn(name: Seq<char>, f: FnDecl) -> Seq<char> {
    fn_head(name, f) + fn_generics(f) + fn_args(f) + fn_output(f)
}

/// Writes the generic parameters that appear in a signature.
fn render_params(params: &Vec<GenericParam>) -> (ps: Vec<Vec<char>>)
    ensures
        views(ps@) == param_texts(params@),
{
    let mut ps: Vec<Vec<char>> = Vec::new();
    for i in 0..params.len()
        invariant
            views(ps@) == param_texts(params@.take(i as int)),
    {
        let p = &params[i];
        assert(params@.take(i + 1).drop_last() =~= params@.take(i as int));
        assert(params@.take(i + 1).last() == params@[i as int]);
        let ghost prev = views(ps@);
        match &p.kind {
            ParamKind::Synthetic => {},
            ParamKind::Const(t) => {
                let mut s: Vec<char> = Vec::new();
                push_str(&mut s, "const ");
                push_str(&mut s, p.name.as_str());
                push_str(&mut s, ": ");
                let r = render_type(t);
                append_chars(&mut s, &r);
                ps.push(s);
                assert(views(ps@) =~= prev.push(s@));
            },
            ParamKind::Named => {
                let s = chars_of(p.name.as_str());
                ps.push(s);
                assert(views(ps@) =~= prev.push(s@));
            },
        }
    }
    assert(params@.take(params@.len() as int) =~= params@);
    ps
}

/// Writes each function argument as `name: type`.
fn render_inputs(inputs: &Vec<(String, Ty)>) -> (ins: Vec<Vec<char>>)
    ensures
        views(ins@) == input_texts(inputs@),
{
    let mut ins: Vec<Vec<char>> = Vec::new();
    for i in 0..inputs.len()
        invariant
            views(ins@) == input_texts(inputs@).take(i as int),
    {
        let pair = &inputs[i];
        let mut s: Vec<char> = Vec::new();
        push_str(&mut s, pair.0.as_str());
        push_str(&mut s, ": ");
        let r = render_type(&pair.1);
        append_chars(&mut s, &r);
        assert(s@ == input_texts(inputs@)[i as int]);
        let ghost prev = views(ins@);
        ins.push(s);
        assert(views(ins@) =~= prev.push(s@));
        assert(input_texts(inputs@).take(i + 1) =~= input_texts(inputs@).take(i as int).push(
            input_texts(inputs@)[i as int],
        ));
    }
    assert(input_texts(inputs@).take(inputs@.len() as int) =~= input_texts(inputs@));
    ins
}

/// Writes the start of a function's signature.
fn render_fn_head(name: &str, f: &FnDecl) -> (out: Vec<char>)
    ensures
        out@ == fn_head(name@, *f),
{
    let mut out: Vec<char> = Vec::new();
    push_str(&mut out, "pub ");
    if f.is_const {
        push_str(&mut out, "const ");
    }
    if f.is_async {
        push_str(&mut out, "async ");
    }
    if f.is_unsafe {
        push_str(&mut out, "unsafe ");
    }
    push_str(&mut out, "fn ");
    push_str(&mut out, name);
    out
}

/// Writes a signature's argument list.
fn render_fn_args(f: &FnDecl) -> (out: Vec<char>)
    ensures
        out@ == fn_args(*f),
{
    let mut out: Vec<char> = Vec::new();
    push_str(&mut out, "(");
    let ins = render_inputs(&f.inputs);
    push_joined(&mut out, &ins);
    if f.is_c_variadic {
        if f.inputs.len() > 0 {
            push_str(&mut out, ", ");
        }
        push_str(&mut out, "...");
    }
    push_str(&mut out, ")");
    out
}

/// Writes a function's one-line signature.
pub fn render_function(name: &str, f: &FnDecl) -> (out: Vec<char>)
    ensures
        out@ == render_fn(name@, *f),
{
    let mut out = render_fn_head(name, f);
    let ps = render_params(&f.params);
    let ghost g = out@;
    if ps.len() > 0 {
        push_str(&mut out, "<");
        push_joined(&mut out, &ps);
        push_str(&mut out, ">");
    }
    assert(out@ =~= g + fn_generics(*f));
    let a = render_fn_args(f);
    append_chars(&mut out, &a);
    let ghost h = out@;
    if let Some(o) = &f.output {
        push_str(&mut out, " -> ");
        let r = render_type(o);
        append_chars(&mut out, &r);
    }
    assert(out@ =~= h + fn_output(*f));
    out
}

/// An item's one-line signature: for functions, structs, enums, unions,
/// traits and type aliases that have a name.
pub open spec fn item_signature(name: Option<Seq<char>>, kind: ItemKind, inner: Inner) -> Option<
    Seq<char>,
> {
    match name {
        None => None,
        Some(n) => match inner {
            Inner::Function(f) => Some(render_fn(n, f)),
            Inner::TypeAlias { ty } => Some("pub type "@ + n + " = "@ + render_ty(ty)),
            Inner::Trait { .. } => Some("pub trait "@ + n),
            Inner::HasImpls { .. } => if kind == ItemKind::Struct {
                Some("pub struct "@ + n)
            } else if kind == ItemKind::Enum {
                Some("pub enum "@ + n)
            } else if kind == ItemKind::Union {
                Some("pub union "@ + n)
            } else {
                None
            },
            _ => None,
        },
    }
}

/// The name of an item as a sequence, if it has one.
pub open spec fn opt_view(s: Option<String>) -> Option<Seq<char>> {
    match s {
        Some(t) => Some(t@),
        None => None,
    }
}

/// Writes an item's one-line signature.
pub fn render_item_signature(item: &Item) -> (r: Option<String>)
    ensures
        (match r {
            Some(s) => Some(s@),
            None => None,
        }) == item_signature(opt_view(item.name), item.kind, item.inner),
{
    let name = match &item.name {
        Some(n) => n,
        None => return None,
    };
    let mut out: Vec<char> = Vec::new();
    match &item.inner {
        Inner::Function(f) => {
            out = render_function(name.as_str(), f);
        },
        Inner::TypeAlias { ty } => {
            push_str(&mut out, "pub type ");
            push_str(&mut out, name.as_str());
            push_str(&mut out, " = ");
            let r = render_type(ty);
            append_chars(&mut out, &r);
        },
        Inner::Trait { .. } => {
            push_str(&mut out, "pub trait ");
            push_str(&mut out, name.as_str());
        },
        Inner::HasImpls { .. } => {
            if item.kind == ItemKind::Struct {
                push_str(&mut out, "pub struct ");
            } else if item.kind == ItemKind::Enum {
                push_str(&mut out, "pub enum ");
            } else if item.kind == ItemKind::Union {
                push_str(&mut out, "pub union ");
            } else {
                return None;
            }
            push_str(&mut out, name.as_str());
        },
        _ => return None,
    }
    Some(string_of(&out))
}

/// A raw pointer shows as `*const ` and its pointee when it is not
/// mutable, as `*mut ` and its pointee when it is.
pub proof fn law_raw_pointer_rendering(is_mutable: bool, pointee: Ty)
    ensures
        !is_mutable ==> render_ty(Ty::RawPointer { is_mutable, ty: Box::new(pointee) }) == "*const "@ + render_ty(
            pointee,
        ),
        is_mutable ==> render_ty(Ty::RawPointer { is_mutable, ty: Box::new(pointee) }) == "*mut "@ + render_ty(
            pointee,
        ),
{
    reveal_strlit("*");
    reveal_strlit("mut");
    reveal_strlit("const");
    reveal_strlit(" ");
    reveal_strlit("*const ");
    reveal_strlit("*mut ");
    let r = render_ty(pointee);
    if is_mutable {
        assert("*"@ + "mut"@ + " "@ + r =~= "*mut "@ + r);
    } else {
        assert("*"@ + "const"@ + " "@ + r =~= "*const "@ + r);
    }
}

/// A reference shows as `&`, then its lifetime and a space when it has one,
/// then `mut ` when it is mutable, then its referent.
pub proof fn law_reference_rendering(lifetime: Option<String>, is_mutable: bool, referent: Ty)
    ensures
        lifetime is None && !is_mutable ==> render_ty(
            Ty::BorrowedRef { lifetime, is_mutable, ty: Box::new(referent) },
        ) == "&"@ + render_ty(referent),
        lifetime is None && is_mutable ==> render_ty(
            Ty::BorrowedRef { lifetime, is_mutable, ty: Box::new(referent) },
        ) == "&mut "@ + render_ty(referent),
        lifetime is Some && !is_mutable ==> render_ty(
            Ty::BorrowedRef { lifetime, is_mutable, ty: Box::new(referent) },
        ) == "&"@ + lifetime->0@ + " "@ + render_ty(referent),
        lifetime is Some && is_mutable ==> render_ty(
            Ty::BorrowedRef { lifetime, is_mutable, ty: Box::new(referent) },
        ) == "&"@ + lifetime->0@ + " mut "@ + render_ty(referent),
{
    reveal_strlit("&");
    reveal_strlit("mut ");
    reveal_strlit("&mut ");
    reveal_strlit(" ");
    reveal_strlit(" mut ");
    let r = render_ty(referent);
    assert("&"@ + seq![] + seq![] + r =~= "&"@ + r);
    assert("&"@ + seq![] + "mut "@ + r =~= "&mut "@ + r);
    if let Some(l) = lifetime {
        assert("&"@ + (l@ + " "@) + seq![] + r =~= "&"@ + l@ + " "@ + r);
        assert("&"@ + (l@ + " "@) + "mut "@ + r =~= "&"@ + l@ + " mut "@ + r);
    }
}

/// A function's signature starts with `pub`, then `const`, `async` and
/// `unsafe` in that order for those it has, then `fn` and its name; it ends
/// with `)` when it returns `()`, and with ` -> ` and its return type
/// otherwise.
pub proof fn law_function_signature_shape(name: Seq<char>, f: FnDecl)
    ensures
        !f.is_const && !f.is_async && !f.is_unsafe ==> has_prefix_text(render_fn(name, f), "pub fn "@ + name),
        !f.is_const && !f.is_async && f.is_unsafe ==> has_prefix_text(render_fn(name, f), "pub unsafe fn "@ + name),
        !f.is_const && f.is_async && !f.is_unsafe ==> has_prefix_text(render_fn(name, f), "pub async fn "@ + name),
        f.is_const && !f.is_async && !f.is_unsafe ==> has_prefix_text(render_fn(name, f), "pub const fn "@ + name),
        f.is_const && f.is_async && f.is_unsafe ==> has_prefix_text(
            render_fn(name, f),
            "pub const async unsafe fn "@ + name,
        ),
        f.output is None ==> render_fn(name, f).last() == ')',
        f.output matches Some(o) ==> has_suffix_text(render_fn(name, f), " -> "@ + render_ty(o)),
{
    reveal_strlit("pub ");
    reveal_strlit("const ");
    reveal_strlit("async ");
    reveal_strlit("unsafe ");
    reveal_strlit("fn ");
    reveal_strlit("pub fn ");
    reveal_strlit("pub unsafe fn ");
    reveal_strlit("pub async fn ");
    reveal_strlit("pub const fn ");
    reveal_strlit("pub const async unsafe fn ");
    reveal_strlit(")");
    let h = fn_head(name, f);
    let rest = fn_generics(f) + fn_args(f) + fn_output(f);
    assert(render_fn(name, f) =~= h + rest);
    let e: Seq<char> = seq![];
    if !f.is_const && !f.is_async && !f.is_unsafe {
        assert(h =~= "pub fn "@ + name);
    }
    if !f.is_const && !f.is_async && f.is_unsafe {
        assert(h =~= "pub unsafe fn "@ + name);
    }
    if !f.is_const && f.is_async && !f.is_unsafe {
        assert(h =~= "pub async fn "@ + name);
    }
    if f.is_const && !f.is_async && !f.is_unsafe {
        assert(h =~= "pub const fn "@ + name);
    }
    if f.is_const && f.is_async && f.is_unsafe {
        assert(h =~= "pub const async unsafe fn "@ + name);
    }
    assert(h.len() <= render_fn(name, f).len());
    assert(render_fn(name, f).take(h.len() as int) =~= h);
    let a = fn_args(f);
    let pre = h + fn_generics(f) + a;
    if f.output is None {
        assert(render_fn(name, f) =~= pre);
        assert(a.last() == ')');
    } else {
        let o = f.output->0;
        assert(render_fn(name, f) =~= pre + (" -> "@ + render_ty(o)));
        assert(render_fn(name, f).skip(pre.len() as int) =~= " -> "@ + render_ty(o));
    }
}

/// `s` starts with `p`.
pub open spec fn has_prefix_text(s: Seq<char>, p: Seq<char>) -> bool {
    p.len() <= s.len() && s.take(p.len() as int) == p
}

/// `s` ends with `p`.
pub open spec fn has_suffix_text(s: Seq<char>, p: Seq<char>) -> bool {
    p.len() <= s.len() && s.skip(s.len() - p.len()) == p
}

} // verus!
