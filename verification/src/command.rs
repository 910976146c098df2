//! How a command function is wired to `POST /rpc/{name}`: where each
//! parameter's value comes from, how the result is passed back, the name
//! of the generated dispatch function, and the entries of a handler table.

use vstd::prelude::*;
use crate::naming::{spec_to_camel, to_camel};
use crate::text::{chars_of, find_chars, spec_find, str_eq};

verus! {

/// An angle-bracketed generic argument: a type, given by its source text,
/// or anything else (a lifetime, a constant, a binding).
pub enum GenericArg {
    Type(String),
    Other,
}

/// A segment of a type's path: its identifier and, when it has angle
/// brackets, its generic arguments in order.
pub struct Segment {
    pub ident: String,
    pub args: Option<Vec<GenericArg>>,
}

/// What the command attribute reads of a type.
pub enum TypeShape {
    /// A path such as `tauri::State<'_, AppState>`.
    Path(Vec<Segment>),
    /// A reference, `&T` or `&mut T`.
    Reference(Box<TypeShape>),
    /// Any other type.
    Other,
}

/// The identifier of the last segment of a type's path, looking through
/// references.
pub open spec fn spec_last_ident(ty: TypeShape) -> Option<Seq<char>>
    decreases ty,
{
    match ty {
        TypeShape::Path(segs) => if segs@.len() == 0 { None } else { Some(segs@.last().ident@) },
        TypeShape::Reference(inner) => spec_last_ident(*inner),
        TypeShape::Other => None,
    }
}

/// The identifier of the last segment of a type's path, looking through
/// references.
pub fn last_segment_ident(ty: &TypeShape) -> (r: Option<String>)
    ensures
        opt_string_view(r) == spec_last_ident(*ty),
    decreases ty,
{
    match ty {
        TypeShape::Path(segs) => {
            let n = segs.len();
            if n == 0 {
                None
            } else {
                Some(segs[n - 1].ident.clone())
            }
        }
        TypeShape::Reference(inner) => last_segment_ident(&**inner),
        TypeShape::Other => None,
    }
}

/// The first type among generic arguments.
pub open spec fn first_type_arg(args: Seq<GenericArg>) -> Option<Seq<char>>
    decreases args.len(),
{
    if args.len() == 0 {
        None
    } else {
        match args[0] {
            GenericArg::Type(t) => Some(t@),
            GenericArg::Other => first_type_arg(args.drop_first()),
        }
    }
}

/// The inner type of `State<'_, T>`: the first type argument of the last
/// segment of a path type (references are not looked through).
pub open spec fn spec_state_inner(ty: TypeShape) -> Option<Seq<char>> {
    match ty {
        TypeShape::Path(segs) => if segs@.len() == 0 {
            None
        } else {
            match segs@.last().args {
                Some(args) => first_type_arg(args@),
                None => None,
            }
        },
        _ => None,
    }
}

/// The inner type of `State<'_, T>`, as its source text.
pub fn state_inner_type(ty: &TypeShape) -> (r: Option<String>)
    ensures
        opt_string_view(r) == spec_state_inner(*ty),
{
    let segs = match ty {
        TypeShape::Path(segs) => segs,
        _ => return None,
    };
    let n = segs.len();
    if n == 0 {
        return None;
    }
    proof {
        assert(segs@.last() == segs@[n - 1]);
    }
    let args = match &segs[n - 1].args {
        Some(a) => a,
        None => return None,
    };
    let mut i: usize = 0;
    proof {
        assert(args@.skip(0) =~= args@);
        assert(*ty == TypeShape::Path(*segs));
        assert(spec_state_inner(*ty) == first_type_arg(args@));
    }
    while i < args.len()
        invariant
            i <= args@.len(),
            first_type_arg(args@) == first_type_arg(args@.skip(i as int)),
            spec_state_inner(*ty) == first_type_arg(args@),
        decreases args@.len() - i,
    {
        proof {
            assert(args@.skip(i as int).drop_first() =~= args@.skip(i + 1));
            assert(args@.skip(i as int)[0] == args@[i as int]);
        }
        match &args[i] {
            GenericArg::Type(t) => {
                proof {
                    assert(args@.skip(i as int).len() > 0);
                    assert(first_type_arg(args@.skip(i as int)) == Some(t@));
                }
                return Some(t.clone());
            },
            GenericArg::Other => {},
        }
        i = i + 1;
    }
    None
}

/// Where a command parameter's value comes from.
pub enum ParamSource {
    /// A registered state value, `State<'_, T>`, with `T` as its source text.
    State(String),
    /// The app handle.
    AppHandle,
    /// The window.
    Window,
    /// The JSON arguments, read under `key` (the lowerCamelCase name) with
    /// `raw` (the name as written) as a second choice.
    Json { key: String, raw: String },
}

/// The view of an optional string.
pub open spec fn opt_view(o: Option<&str>) -> Option<Seq<char>> {
    match o {
        Some(s) => Some(s@),
        None => None,
    }
}

/// The view of an optional owned string.
pub open spec fn opt_string_view(o: Option<String>) -> Option<Seq<char>> {
    match o {
        Some(s) => Some(s@),
        None => None,
    }
}

/// A typed parameter can be wired: a `State` must name its inner type, the
/// app handle and the window always can, and anything else must be bound
/// to a plain identifier.
pub open spec fn typed_accepted(ty: TypeShape, raw: Option<Seq<char>>) -> bool {
    let id = spec_last_ident(ty);
    if id == Some("State"@) {
        spec_state_inner(ty) is Some
    } else if id == Some("AppHandle"@) || id == Some("Window"@) {
        true
    } else {
        raw is Some
    }
}

/// The error for a typed parameter that cannot be wired.
pub open spec fn typed_error(ty: TypeShape) -> Seq<char> {
    if spec_last_ident(ty) == Some("State"@) {
        "无法解析 State 的内部类型"@
    } else {
        "命令参数必须是简单标识符"@
    }
}

/// `s` is how an accepted typed parameter is wired.
pub open spec fn typed_source(ty: TypeShape, raw: Option<Seq<char>>, s: ParamSource) -> bool {
    let id = spec_last_ident(ty);
    if id == Some("State"@) {
        s matches ParamSource::State(inner) && Some(inner@) == spec_state_inner(ty)
    } else if id == Some("AppHandle"@) {
        s is AppHandle
    } else if id == Some("Window"@) {
        s is Window
    } else {
        match raw {
            Some(n) => s matches ParamSource::Json { key, raw: rr } && key@ == spec_to_camel(n) && rr@ == n,
            None => false,
        }
    }
}

/// Law: a parameter whose type path ends in `Window` or `AppHandle` is
/// injected, whatever segments come before and whatever generic arguments
/// the last segment carries (`tauri::AppHandle<R>` included), and whatever
/// its name; the same holds behind a reference.
pub proof fn lemma_injected_by_last_segment(ty: TypeShape, raw: Option<Seq<char>>, s: ParamSource)
    ensures
        (ty matches TypeShape::Path(segs) && segs@.len() > 0 && segs@.last().ident@ == "Window"@) ==>
            typed_accepted(ty, raw) && (typed_source(ty, raw, s) <==> s is Window),
        (ty matches TypeShape::Path(segs) && segs@.len() > 0 && segs@.last().ident@ == "AppHandle"@) ==>
            typed_accepted(ty, raw) && (typed_source(ty, raw, s) <==> s is AppHandle),
        (ty matches TypeShape::Reference(b) && (*b matches TypeShape::Path(segs) && segs@.len() > 0
            && segs@.last().ident@ == "Window"@)) ==> typed_accepted(ty, raw) && (typed_source(ty, raw, s) <==> s is Window),
        (ty matches TypeShape::Reference(b) && (*b matches TypeShape::Path(segs) && segs@.len() > 0
            && segs@.last().ident@ == "AppHandle"@)) ==> typed_accepted(ty, raw) && (typed_source(ty, raw, s) <==> s is AppHandle),
{
    reveal_strlit("State");
    reveal_strlit("AppHandle");
    reveal_strlit("Window");
    assert("State"@ != "Window"@) by {
        assert("State"@.len() != "Window"@.len());
    }
    assert("State"@ != "AppHandle"@) by {
        assert("State"@.len() != "AppHandle"@.len());
    }
    assert("AppHandle"@ != "Window"@) by {
        assert("AppHandle"@.len() != "Window"@.len());
    }
    if let TypeShape::Reference(b) = ty {
        assert(spec_last_ident(ty) == spec_last_ident(*b));
        if let TypeShape::Path(segs) = *b {
            if segs@.len() > 0 {
                assert(spec_last_ident(*b) == Some(segs@.last().ident@));
            }
        }
    }
}

/// Law: a parameter is classified by the identifier that ends its type
/// path: two types ending in the same identifier other than `State` are
/// accepted alike and wired alike, whatever else their paths hold.
pub proof fn lemma_classified_by_last_ident(ty1: TypeShape, ty2: TypeShape, raw: Option<Seq<char>>, s: ParamSource)
    requires
        spec_last_ident(ty1) == spec_last_ident(ty2),
        spec_last_ident(ty1) != Some("State"@),
    ensures
        typed_accepted(ty1, raw) == typed_accepted(ty2, raw),
        typed_source(ty1, raw, s) == typed_source(ty2, raw, s),
{
}

/// Law: a `State<T>` parameter is wired to the state of its first type
/// argument, whatever its name; without a type argument it is refused.
pub proof fn lemma_state_by_inner_type(ty: TypeShape, raw: Option<Seq<char>>, s: ParamSource)
    requires
        ty matches TypeShape::Path(segs) && segs@.len() > 0 && segs@.last().ident@ == "State"@,
    ensures
        typed_accepted(ty, raw) == (spec_state_inner(ty) is Some),
        typed_accepted(ty, raw) ==> (typed_source(ty, raw, s) <==>
            (s matches ParamSource::State(inner) && Some(inner@) == spec_state_inner(ty))),
        !typed_accepted(ty, raw) ==> typed_error(ty) == "无法解析 State 的内部类型"@,
{
}

/// Classifies a typed parameter by the last segment of its type's path
/// and, for a plain parameter, its name when the pattern is a plain
/// identifier (`raw`).
pub fn classify_param(ty: &TypeShape, raw: Option<&str>) -> (r: Result<ParamSource, String>)
    ensures
        typed_accepted(*ty, opt_view(raw)) ==> (r matches Ok(s) && typed_source(*ty, opt_view(raw), s)),
        !typed_accepted(*ty, opt_view(raw)) ==> (r matches Err(m) && m@ == typed_error(*ty)),
{
    proof {
        reveal_strlit("State");
        reveal_strlit("AppHandle");
        reveal_strlit("Window");
        assert("State"@.len() == 5);
        assert("AppHandle"@.len() == 9);
        assert("Window"@.len() == 6);
        assert("State"@[0] != "Window"@[0]);
    }
    let id = last_segment_ident(ty);
    if let Some(t) = &id {
        if str_eq(t.as_str(), "State") {
            match state_inner_type(ty) {
                Some(inner) => return Ok(ParamSource::State(inner)),
                None => return Err("无法解析 State 的内部类型".to_owned()),
            }
        } else if str_eq(t.as_str(), "AppHandle") {
            return Ok(ParamSource::AppHandle);
        } else if str_eq(t.as_str(), "Window") {
            return Ok(ParamSource::Window);
        }
    }
    match raw {
        Some(n) => Ok(ParamSource::Json { key: to_camel(n), raw: n.to_owned() }),
        None => Err("命令参数必须是简单标识符".to_owned()),
    }
}

/// What the command attribute reads of one parameter: whether it is a
/// `self` receiver, its type, and its name when the pattern is a plain
/// identifier.
pub struct ParamShape {
    pub is_receiver: bool,
    pub ty: TypeShape,
    pub raw: Option<String>,
}

/// The parameter can be wired: it is no receiver and its type is accepted.
pub open spec fn shape_accepted(p: ParamShape) -> bool {
    !p.is_receiver && typed_accepted(p.ty, opt_string_view(p.raw))
}

/// The error for a parameter that cannot be wired.
pub open spec fn shape_error(p: ParamShape) -> Seq<char> {
    if p.is_receiver {
        "命令不支持 self 参数"@
    } else {
        typed_error(p.ty)
    }
}

/// `s` is how an accepted parameter is wired.
pub open spec fn shape_source(p: ParamShape, s: ParamSource) -> bool {
    typed_source(p.ty, opt_string_view(p.raw), s)
}

/// Classifies every parameter in order; the first that cannot be wired
/// gives the error.
pub fn classify_params(params: &Vec<ParamShape>) -> (r: Result<Vec<ParamSource>, String>)
    ensures
        r is Ok <==> (forall|i: int| 0 <= i < params.len() ==> shape_accepted(#[trigger] params@[i])),
        r matches Ok(v) ==> v.len() == params.len()
            && forall|i: int| 0 <= i < params.len() ==> shape_source(params@[i], #[trigger] v@[i]),
        r matches Err(m) ==> exists|i: int| 0 <= i < params.len() && !shape_accepted(#[trigger] params@[i])
            && m@ == shape_error(params@[i])
            && forall|j: int| 0 <= j < i ==> shape_accepted(#[trigger] params@[j]),
{
    let mut out: Vec<ParamSource> = Vec::new();
    let mut i: usize = 0;
    while i < params.len()
        invariant
            i <= params.len(),
            out.len() == i,
            forall|j: int| 0 <= j < i ==> shape_accepted(#[trigger] params@[j]),
            forall|j: int| 0 <= j < i ==> shape_source(params@[j], #[trigger] out@[j]),
        decreases params.len() - i,
    {
        let p = &params[i];
        if p.is_receiver {
            proof {
                assert(!shape_accepted(params@[i as int]));
            }
            return Err("命令不支持 self 参数".to_owned());
        }
        let raw = match &p.raw {
            Some(n) => Some(n.as_str()),
            None => None,
        };
        proof {
            assert(opt_view(raw) == opt_string_view(p.raw));
        }
        match classify_param(&p.ty, raw) {
            Ok(s) => {
                out.push(s);
            },
            Err(m) => {
                proof {
                    assert(!shape_accepted(params@[i as int]));
                }
                return Err(m);
            },
        }
        i = i + 1;
    }
    Ok(out)
}

/// A command's result is passed through `Err -> String` when the last
/// segment of its return type is `Result`; a command without a return
/// type, or with any other, is serialized as it is.
pub fn returns_result(ret: Option<&TypeShape>) -> (r: bool)
    ensures
        r == (ret matches Some(t) && spec_last_ident(*t) == Some("Result"@)),
{
    match ret {
        Some(t) => match last_segment_ident(t) {
            Some(id) => str_eq(id.as_str(), "Result"),
            None => false,
        },
        None => false,
    }
}

/// `text` contains `pat`.
pub open spec fn contains_text(text: Seq<char>, pat: Seq<char>) -> bool {
    spec_find(text, pat) is Some
}

/// The command attribute is accepted unless it asks for a `rename_all`
/// other than `camelCase` (camelCase is the default anyway).
pub fn rename_all_supported(attr: &str) -> (r: bool)
    ensures
        r == !(contains_text(attr@, "rename_all"@) && !contains_text(attr@, "camelCase"@)),
{
    let a = chars_of(attr);
    let ra = chars_of("rename_all");
    let cc = chars_of("camelCase");
    let has_rename = find_chars(&a, &ra).is_some();
    let has_camel = find_chars(&a, &cc).is_some();
    !(has_rename && !has_camel)
}

/// Name of the generated dispatch function of command `name`.
pub fn rpc_fn_name(name: &str) -> (r: String)
    ensures
        r@ == "__rpc_"@ + name@,
{
    let mut s = String::new();
    s.append("__rpc_");
    s.append(name);
    s
}

/// How one command function is wired.
pub struct CommandPlan {
    /// Name of the generated dispatch function.
    pub rpc_name: String,
    /// The command is generic over the runtime and is called as `<Wry>`.
    pub instantiate_wry: bool,
    /// The command is awaited.
    pub is_async: bool,
    /// Where each parameter comes from, in order.
    pub params: Vec<ParamSource>,
    /// An `Err` result is turned into its message.
    pub returns_result: bool,
}

/// The kind of a generic parameter of a command function.
pub enum GenericParamKind {
    Type,
    Lifetime,
    Const,
}

/// Whether any generic parameter is a type (the runtime `R`).
pub fn has_type_generic(generics: &Vec<GenericParamKind>) -> (r: bool)
    ensures
        r == exists|i: int| 0 <= i < generics.len() && #[trigger] generics@[i] is Type,
{
    let mut i: usize = 0;
    while i < generics.len()
        invariant
            i <= generics.len(),
            forall|j: int| 0 <= j < i ==> !(#[trigger] generics@[j] is Type),
        decreases generics.len() - i,
    {
        if let GenericParamKind::Type = &generics[i] {
            return true;
        }
        i = i + 1;
    }
    false
}

/// Plans the dispatch function of command `name`: refused when a
/// parameter cannot be wired (the first such parameter gives the error),
/// else every parameter's source, whether the call is awaited, whether it
/// is instantiated with `Wry` (when a generic parameter is a type), and
/// how the result is passed back.
pub fn plan_command(
    name: &str,
    is_async: bool,
    generics: &Vec<GenericParamKind>,
    params: &Vec<ParamShape>,
    ret: Option<&TypeShape>,
) -> (r: Result<CommandPlan, String>)
    ensures
        r is Ok <==> (forall|i: int| 0 <= i < params.len() ==> shape_accepted(#[trigger] params@[i])),
        r matches Ok(plan) ==> {
            &&& plan.rpc_name@ == "__rpc_"@ + name@
            &&& plan.instantiate_wry == exists|i: int| 0 <= i < generics.len() && #[trigger] generics@[i] is Type
            &&& plan.is_async == is_async
            &&& plan.returns_result == (ret matches Some(t) && spec_last_ident(*t) == Some("Result"@))
            &&& plan.params.len() == params.len()
            &&& forall|i: int| 0 <= i < params.len() ==> shape_source(params@[i], #[trigger] plan.params@[i])
        },
        r matches Err(m) ==> exists|i: int| 0 <= i < params.len() && !shape_accepted(#[trigger] params@[i])
            && m@ == shape_error(params@[i])
            && forall|j: int| 0 <= j < i ==> shape_accepted(#[trigger] params@[j]),
{
    let sources = match classify_params(params) {
        Ok(v) => v,
        Err(m) => return Err(m),
    };
    Ok(CommandPlan {
        rpc_name: rpc_fn_name(name),
        instantiate_wry: has_type_generic(generics),
        is_async,
        params: sources,
        returns_result: returns_result(ret),
    })
}

/// An entry of a handler table: the command's name and the path of its
/// dispatch function, segment by segment.
pub struct HandlerEntry {
    pub name: String,
    pub rpc_path: Vec<String>,
}

/// The view of a path given as its segments.
pub open spec fn path_view(p: Vec<String>) -> Seq<Seq<char>> {
    p@.map_values(|s: String| s@)
}

/// The view of an entry.
pub open spec fn entry_view(e: HandlerEntry) -> (Seq<char>, Seq<Seq<char>>) {
    (e.name@, path_view(e.rpc_path))
}

/// The entry registered for a command path: its last segment names the
/// command, and the dispatch function is that segment prefixed with
/// `__rpc_`, in the same module.  An empty path registers nothing.
pub open spec fn spec_entry(p: Seq<Seq<char>>) -> Option<(Seq<char>, Seq<Seq<char>>)> {
    if p.len() == 0 {
        None
    } else {
        Some((p.last(), p.drop_last().push("__rpc_"@ + p.last())))
    }
}

/// The entries registered for a list of command paths, in order.
pub open spec fn spec_entries(ps: Seq<Seq<Seq<char>>>) -> Seq<(Seq<char>, Seq<Seq<char>>)>
    decreases ps.len(),
{
    if ps.len() == 0 {
        Seq::empty()
    } else {
        let rest = spec_entries(ps.drop_last());
        match spec_entry(ps.last()) {
            Some(e) => rest.push(e),
            None => rest,
        }
    }
}

/// The handler table entries for the listed command paths.
pub fn handler_entries(paths: &Vec<Vec<String>>) -> (r: Vec<HandlerEntry>)
    ensures
        r@.map_values(|e: HandlerEntry| entry_view(e)) == spec_entries(paths@.map_values(|p: Vec<String>| path_view(p))),
{
    let ghost pv = paths@.map_values(|p: Vec<String>| path_view(p));
    let mut out: Vec<HandlerEntry> = Vec::new();
    let mut i: usize = 0;
    while i < paths.len()
        invariant
            i <= paths.len(),
            pv == paths@.map_values(|p: Vec<String>| path_view(p)),
            out@.map_values(|e: HandlerEntry| entry_view(e)) == spec_entries(pv.take(i as int)),
        decreases paths.len() - i,
    {
        let p = &paths[i];
        proof {
            assert(pv.take(i + 1).drop_last() =~= pv.take(i as int));
            assert(pv.take(i + 1).last() == path_view(*p));
        }
        let n = p.len();
        if n > 0 {
            let mut rpc_path: Vec<String> = Vec::new();
            let mut k: usize = 0;
            while k + 1 < n
                invariant
                    n == p.len(),
                    n > 0,
                    k + 1 <= n,
                    path_view(rpc_path) == path_view(*p).take(k as int),
                decreases n - k,
            {
                let seg = p[k].clone();
                let ghost before = rpc_path@;
                rpc_path.push(seg);
                proof {
                    assert(seg@ == path_view(*p)[k as int]);
                    assert(rpc_path@ == before.push(seg));
                    assert(path_view(rpc_path) =~= before.map_values(|s: String| s@).push(seg@));
                    assert(path_view(*p).take(k + 1) =~= path_view(*p).take(k as int).push(path_view(*p)[k as int]));
                    assert(path_view(rpc_path) =~= path_view(*p).take(k + 1));
                }
                k = k + 1;
            }
            let last = &p[n - 1];
            rpc_path.push(rpc_fn_name(last.as_str()));
            let entry = HandlerEntry { name: last.clone(), rpc_path };
            proof {
                let pp = path_view(*p);
                assert(pp.drop_last() =~= pp.take(n - 1));
                assert(path_view(entry.rpc_path) =~= pp.drop_last().push("__rpc_"@ + pp.last()));
                assert(entry_view(entry) == spec_entry(pp)->0);
            }
            let ghost before = out@;
            out.push(entry);
            proof {
                assert(out@.map_values(|e: HandlerEntry| entry_view(e)) =~= before.map_values(|e: HandlerEntry| entry_view(e)).push(entry_view(entry)));
            }
        }
        i = i + 1;
    }
    proof {
        assert(pv.take(paths.len() as int) =~= pv);
    }
    out
}


// ---------------------------------------------------------------------
// Running a planned command
// ---------------------------------------------------------------------

/// Message for a `State<T>` whose type is not registered.
pub open spec fn missing_state_text(state_type: Seq<char>) -> Seq<char> {
    "状态 "@ + state_type + " 未注册"@
}

/// Message for an argument that could not be decoded.
pub open spec fn bad_argument_text(key: Seq<char>, error: Seq<char>) -> Seq<char> {
    "参数 "@ + key + " 解析失败: "@ + error
}

/// `状态 <state_type> 未注册`.
pub fn missing_state_message(state_type: &str) -> (r: String)
    ensures
        r@ == missing_state_text(state_type@),
{
    let mut m = String::new();
    m.append("状态 ");
    m.append(state_type);
    m.append(" 未注册");
    m
}

/// `参数 <key> 解析失败: <error>`.
pub fn bad_argument_message(key: &str, error: &str) -> (r: String)
    ensures
        r@ == bad_argument_text(key@, error@),
{
    let mut m = String::new();
    m.append("参数 ");
    m.append(key);
    m.append(" 解析失败: ");
    m.append(error);
    m
}

/// What resolving one parameter of a call gave.  A JSON parameter whose key
/// is absent is decoded from `null` (so an `Option` parameter gets `None`).
pub enum Lookup<A> {
    /// The parameter's value: the state, the handle, the window or the
    /// decoded argument.
    Value(A),
    /// A `State<T>` whose type, named `state_type`, is not registered.
    MissingState(String),
    /// The argument read under `key` could not be decoded (the decoder's
    /// message).
    BadArgument { key: String, error: String },
}

/// The error a failed lookup stops the call with; `None` for a value.
pub open spec fn lookup_error<A>(l: Lookup<A>) -> Option<Seq<char>> {
    match l {
        Lookup::Value(_) => None,
        Lookup::MissingState(t) => Some(missing_state_text(t@)),
        Lookup::BadArgument { key, error } => Some(bad_argument_text(key@, error@)),
    }
}

/// How a call starts once its parameters are resolved.
pub enum CallStart<A> {
    /// Run the command with these arguments, in parameter order.
    Run(Vec<A>),
    /// Answer with this error; the command does not run.
    Refuse(String),
}

/// Starts a call of a planned command from the lookups of its parameters,
/// in the plan's order: the command runs, with every value in order, exactly
/// when every lookup gave a value; otherwise the first failed lookup gives
/// the error and the command does not run.
pub fn begin_call<A>(plan: &CommandPlan, lookups: Vec<Lookup<A>>) -> (r: CallStart<A>)
    requires
        lookups.len() == plan.params.len(),
    ensures
        r is Run <==> (forall|i: int| 0 <= i < lookups.len() ==> #[trigger] lookups@[i] is Value),
        r matches CallStart::Run(args) ==> args.len() == lookups.len()
            && forall|i: int| 0 <= i < lookups.len() ==> lookups@[i] == Lookup::Value(#[trigger] args@[i]),
        r matches CallStart::Refuse(m) ==> exists|i: int| 0 <= i < lookups.len() && !(#[trigger] lookups@[i] is Value)
            && lookup_error(lookups@[i]) == Some(m@)
            && forall|j: int| 0 <= j < i ==> #[trigger] lookups@[j] is Value,
{
    let ghost all = lookups@;
    let n = lookups.len();
    let mut rest = lookups;
    let mut args: Vec<A> = Vec::new();
    let mut i: usize = 0;
    proof {
        assert(all.skip(0) =~= all);
    }
    while i < n
        invariant
            n == all.len(),
            all == lookups@,
            i <= n,
            rest@ =~= all.skip(i as int),
            args.len() == i,
            forall|j: int| 0 <= j < i ==> all[j] == Lookup::Value(#[trigger] args@[j]),
        decreases n - i,
    {
        let ghost before = rest@;
        let l = rest.remove(0);
        proof {
            assert(before[0] == all[i as int]);
            assert(rest@ =~= all.skip(i + 1));
        }
        match l {
            Lookup::Value(v) => {
                args.push(v);
            },
            Lookup::MissingState(t) => {
                proof {
                    assert forall|j: int| 0 <= j < i implies #[trigger] all[j] is Value by {
                        assert(all[j] == Lookup::Value(args@[j]));
                    }
                    assert(!(all[i as int] is Value));
                }
                return CallStart::Refuse(missing_state_message(t.as_str()));
            },
            Lookup::BadArgument { key, error } => {
                proof {
                    assert forall|j: int| 0 <= j < i implies #[trigger] all[j] is Value by {
                        assert(all[j] == Lookup::Value(args@[j]));
                    }
                    assert(!(all[i as int] is Value));
                }
                return CallStart::Refuse(bad_argument_message(key.as_str(), error.as_str()));
            },
        }
        i = i + 1;
    }
    proof {
        assert forall|j: int| 0 <= j < n implies #[trigger] all[j] is Value by {
            assert(all[j] == Lookup::Value(args@[j]));
        }
    }
    CallStart::Run(args)
}

/// What a command returned: a `Result`, with an error already turned into
/// its text, or any other value.
pub enum Returned<R> {
    Result(Result<R, String>),
    Value(R),
}

/// The reply of a call that ran: a `Result` is passed on (an `Err` as its
/// text), any other value is `Ok`.  The value is serialized afterwards.
pub fn finish_call<R>(plan: &CommandPlan, returned: Returned<R>) -> (r: Result<R, String>)
    requires
        (returned is Result) == plan.returns_result,
    ensures
        returned matches Returned::Result(x) ==> r == x,
        returned matches Returned::Value(v) ==> r == Ok::<R, String>(v),
{
    match returned {
        Returned::Result(x) => x,
        Returned::Value(v) => Ok(v),
    }
}

} // verus!
