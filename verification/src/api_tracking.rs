//! System-interaction semantics: classifying API calls that acquire or
//! release operating-system handles.

use vstd::prelude::*;
use indexmap::IndexMap;
use crate::collections::{
    assoc_get, assoc_insert, function_table_items, function_table_name, function_table_xrefs, handle_map_insert,
    handle_map_items, handle_map_new,
};
use crate::recovered_types::{FunctionView, SdbFunction, SdbImport, SdbXref, XrefKind};
use crate::text::{hex_lower, push_hex_lower, to_chars};

verus! {

/// The role of an API call in a handle's lifecycle.
#[derive(Debug, Clone, Copy, PartialEq, Eq, Structural)]
pub enum HandleApiKind {
    Acquire,
    Release,
    Other,
}

/// `c` with ASCII upper-case letters mapped to lower case.
pub open spec fn ascii_lower(c: char) -> char {
    if 'A' <= c && c <= 'Z' {
        ((c as u32) + 32) as char
    } else {
        c
    }
}

/// `s` without its leading run of `c`.
pub open spec fn trim_start_char(s: Seq<char>, c: char) -> Seq<char>
    decreases s.len(),
{
    if s.len() > 0 && s[0] == c {
        trim_start_char(s.drop_first(), c)
    } else {
        s
    }
}

/// The normalised API name: leading underscores removed, ASCII lower case.
pub open spec fn api_key(name: Seq<char>) -> Seq<char> {
    trim_start_char(name, '_').map_values(|c: char| ascii_lower(c))
}

/// The handle role of the API called `name`.
pub open spec fn handle_api_kind(name: Seq<char>) -> HandleApiKind {
    let k = api_key(name);
    if k == "createfilea"@ || k == "createfilew"@ || k == "openprocess"@ || k == "openthread"@
        || k == "socket"@ || k == "accept"@ {
        HandleApiKind::Acquire
    } else if k == "closehandle"@ || k == "closesocket"@ {
        HandleApiKind::Release
    } else {
        HandleApiKind::Other
    }
}

/// The API names that acquire a handle, normalised.
pub open spec fn acquire_keys() -> Set<Seq<char>> {
    set!["createfilea"@, "createfilew"@, "openprocess"@, "openthread"@, "socket"@, "accept"@]
}

/// The API names that release a handle, normalised.
pub open spec fn release_keys() -> Set<Seq<char>> {
    set!["closehandle"@, "closesocket"@]
}

/// An API acquires a handle exactly when its normalised name is one of the
/// acquiring APIs, and releases one exactly when it is one of the
/// releasing APIs; every other API is neither.
pub proof fn law_handle_kind_by_name(name: Seq<char>)
    ensures
        (handle_api_kind(name) == HandleApiKind::Acquire) <==> acquire_keys().contains(api_key(name)),
        (handle_api_kind(name) == HandleApiKind::Release) <==> release_keys().contains(api_key(name)),
        (handle_api_kind(name) == HandleApiKind::Other) <==> !acquire_keys().contains(api_key(name))
            && !release_keys().contains(api_key(name)),
{
    reveal_strlit("createfilea");
    reveal_strlit("createfilew");
    reveal_strlit("openprocess");
    reveal_strlit("openthread");
    reveal_strlit("socket");
    reveal_strlit("accept");
    reveal_strlit("closehandle");
    reveal_strlit("closesocket");
    let k = api_key(name);
    if k == "closehandle"@ || k == "closesocket"@ {
        assert(k[1] == 'l');
        assert("createfilea"@[1] == 'r' && "createfilew"@[1] == 'r' && "openprocess"@[1] == 'p');
        assert(k != "createfilea"@ && k != "createfilew"@ && k != "openprocess"@);
    }
}

proof fn lemma_trim_push(s: Seq<char>, c: char)
    requires
        c != '_',
    ensures
        trim_start_char(s.push(c), '_') == trim_start_char(s, '_').push(c),
    decreases s.len(),
{
    if s.len() > 0 && s[0] == '_' {
        assert(s.push(c).drop_first() =~= s.drop_first().push(c));
        lemma_trim_push(s.drop_first(), c);
    } else if s.len() == 0 {
        assert(s.push(c) =~= seq![c]);
        assert(trim_start_char(seq![c], '_') == seq![c]);
    }
}

/// The key of a name with one more character is the key of the name with
/// that character, lower-cased, appended.
proof fn lemma_key_push(p: Seq<char>, c: char)
    requires
        c != '_',
    ensures
        api_key(p.push(c)) == api_key(p).push(ascii_lower(c)),
{
    lemma_trim_push(p, c);
    assert(api_key(p.push(c)) =~= api_key(p).push(ascii_lower(c)));
}

/// The ANSI (`A`) and wide (`W`) variants of an API classify alike.
pub proof fn law_ansi_and_wide_variants_classify_alike(p: Seq<char>)
    ensures
        handle_api_kind(p.push('A')) == handle_api_kind(p.push('W')),
{
    lemma_key_push(p, 'A');
    lemma_key_push(p, 'W');
    let k = api_key(p);
    assert(ascii_lower('A') == 'a');
    assert(ascii_lower('W') == 'w');
    reveal_strlit("createfilea");
    reveal_strlit("createfilew");
    reveal_strlit("openprocess");
    reveal_strlit("openthread");
    reveal_strlit("socket");
    reveal_strlit("accept");
    reveal_strlit("closehandle");
    reveal_strlit("closesocket");
    let ka = k.push('a');
    let kw = k.push('w');
    if ka == "createfilea"@ {
        assert(k =~= ka.drop_last());
        assert(kw =~= "createfilew"@);
    }
    if kw == "createfilew"@ {
        assert(k =~= kw.drop_last());
        assert(ka =~= "createfilea"@);
    }
    assert(ka.last() == 'a' && kw.last() == 'w');
}

pub(crate) fn chars_eq(v: &Vec<char>, s: &str) -> (r: bool)
    ensures
        r == (v@ == s@),
{
    let m = s.unicode_len();
    if m != v.len() {
        return false;
    }
    let mut i: usize = 0;
    while i < m
        invariant
            m == s@.len(),
            m == v@.len(),
            i <= m,
            forall|k: int| 0 <= k < i ==> v@[k] == s@[k],
        decreases m - i,
    {
        if v[i] != s.get_char(i) {
            return false;
        }
        i = i + 1;
    }
    assert(v@ =~= s@);
    true
}

/// The normalised key of the API name `name`.
pub(crate) fn api_key_chars(name: &str) -> (key: Vec<char>)
    ensures
        key@ == api_key(name@),
{
    let cs = to_chars(name);
    let n = cs.len();
    let mut start: usize = 0;
    assert(cs@.subrange(0, n as int) =~= cs@);
    while start < n && cs[start] == '_'
        invariant
            n == cs@.len(),
            start <= n,
            trim_start_char(cs@, '_') == trim_start_char(cs@.subrange(start as int, n as int), '_'),
        decreases n - start,
    {
        assert(cs@.subrange(start as int, n as int).drop_first() =~= cs@.subrange(start + 1, n as int));
        start = start + 1;
    }
    assert(trim_start_char(cs@, '_') =~= cs@.subrange(start as int, n as int));
    let mut key: Vec<char> = Vec::new();
    let mut i = start;
    while i < n
        invariant
            n == cs@.len(),
            start <= i <= n,
            key@ == cs@.subrange(start as int, i as int).map_values(|c: char| ascii_lower(c)),
        decreases n - i,
    {
        let c = cs[i];
        let l = if 'A' <= c && c <= 'Z' {
            ((c as u32) + 32) as u8 as char
        } else {
            c
        };
        assert(l == ascii_lower(c)) by {
            if 'A' <= c && c <= 'Z' {
                assert(((c as u32) + 32) as u8 as char == ((c as u32) + 32) as char);
            }
        }
        key.push(l);
        assert(cs@.subrange(start as int, i + 1).map_values(|c: char| ascii_lower(c)) =~= cs@.subrange(
            start as int,
            i as int,
        ).map_values(|c: char| ascii_lower(c)).push(l));
        i = i + 1;
    }
    assert(key@ == api_key(name@));
    key
}

/// Classifies an API by name, ignoring leading underscores and ASCII case:
/// file, process, thread and socket openers acquire a handle;
/// `CloseHandle` and `closesocket` release one.
pub fn classify_handle_api(name: &str) -> (r: HandleApiKind)
    ensures
        r == handle_api_kind(name@),
{
    let key = api_key_chars(name);
    if chars_eq(&key, "createfilea") || chars_eq(&key, "createfilew") || chars_eq(&key, "openprocess")
        || chars_eq(&key, "openthread") || chars_eq(&key, "socket") || chars_eq(&key, "accept") {
        HandleApiKind::Acquire
    } else if chars_eq(&key, "closehandle") || chars_eq(&key, "closesocket") {
        HandleApiKind::Release
    } else {
        HandleApiKind::Other
    }
}

/// The lifecycle of an operating-system handle.
#[derive(Debug, Clone)]
pub struct HandleLifecycle {
    pub handle_id: String,
    pub acquired_at: u64,
    pub released_at: Option<u64>,
    pub usage_sites: Vec<u64>,
}

/// A lifecycle by its identifier, acquisition site, release site and uses.
pub type HandleView = (Seq<char>, u64, Option<u64>, Seq<u64>);

/// The view of a lifecycle.
pub open spec fn handle_view(h: HandleLifecycle) -> HandleView {
    (h.handle_id@, h.acquired_at, h.released_at, h.usage_sites@)
}

/// The first import from `i` on called through `a`.
pub open spec fn import_at(imports: Seq<SdbImport>, a: u64, i: int) -> Option<int>
    decreases imports.len() - i,
{
    if i < 0 || i >= imports.len() {
        None
    } else if imports[i].address == a {
        Some(i)
    } else {
        import_at(imports, a, i + 1)
    }
}

/// The name a call to `a` resolves to: the first import called through
/// it, else the name of the function recorded there.
pub open spec fn call_name(imports: Seq<SdbImport>, funcs: Seq<(u64, FunctionView)>, a: u64) -> Option<Seq<char>> {
    match import_at(imports, a, 0) {
        Some(k) => Some(imports[k].symbol_name@),
        None => match assoc_get(funcs, a) {
            Some(f) => f.0,
            None => None,
        },
    }
}

/// The name a call to `a` resolves to.
pub(crate) fn resolve_call_name(imports: &Vec<SdbImport>, funcs: &IndexMap<u64, SdbFunction>, a: u64) -> (r: Option<
    String,
>)
    ensures
        match r {
            Some(n) => call_name(imports@, function_table_items(*funcs), a) == Some(n@),
            None => call_name(imports@, function_table_items(*funcs), a) is None,
        },
{
    let mut i: usize = 0;
    while i < imports.len()
        invariant
            i <= imports@.len(),
            import_at(imports@, a, 0) == import_at(imports@, a, i as int),
        decreases imports@.len() - i,
    {
        if imports[i].address == a {
            return Some(imports[i].symbol_name.clone());
        }
        i += 1;
    }
    function_table_name(funcs, a)
}

/// The identifier of a handle acquired at `site`.
pub open spec fn handle_label(site: u64) -> Seq<char> {
    "handle_"@ + hex_lower(site as nat)
}

/// The handles after the first `k` calls among `xs` that acquire one: each
/// acquisition site names a fresh lifecycle, replacing one of that name in
/// place.
pub open spec fn handles_from(
    imports: Seq<SdbImport>,
    funcs: Seq<(u64, FunctionView)>,
    hs: Seq<(Seq<char>, HandleView)>,
    xs: Seq<SdbXref>,
    k: int,
) -> Seq<(Seq<char>, HandleView)>
    decreases k,
{
    if k <= 0 {
        hs
    } else {
        let prev = handles_from(imports, funcs, hs, xs, k - 1);
        let x = xs[k - 1];
        if x.xref_kind == XrefKind::Call && (match call_name(imports, funcs, x.to_addr) {
            Some(n) => handle_api_kind(n) == HandleApiKind::Acquire,
            None => false,
        }) {
            let id = handle_label(x.from_addr);
            assoc_insert(prev, id, (id, x.from_addr, None, Seq::empty()))
        } else {
            prev
        }
    }
}

/// The handles acquired by the first `k` functions, function by function.
pub open spec fn handles_upto(imports: Seq<SdbImport>, funcs: Seq<(u64, FunctionView)>, k: int) -> Seq<
    (Seq<char>, HandleView),
>
    decreases k,
{
    if k <= 0 {
        Seq::empty()
    } else {
        let xs = funcs[k - 1].1.1;
        handles_from(imports, funcs, handles_upto(imports, funcs, k - 1), xs, xs.len() as int)
    }
}

/// Tracks the handles the functions acquire: each call out of a function
/// that resolves to a handle-acquiring API starts a lifecycle named after
/// the call site.
pub fn analyze_api_semantics(functions: &IndexMap<u64, SdbFunction>, imports: &Vec<SdbImport>) -> (r: IndexMap<
    String,
    HandleLifecycle,
>)
    ensures
        handle_map_items(r) == handles_upto(
            imports@,
            function_table_items(*functions),
            function_table_items(*functions).len() as int,
        ),
{
    let ghost funcs = function_table_items(*functions);
    let table = function_table_xrefs(functions);
    let mut handles = handle_map_new();
    proof {
        assert(table@.map_values(|e: (u64, Vec<SdbXref>)| (e.0, e.1@)).len() == table@.len());
        assert(funcs.map_values(|e: (u64, FunctionView)| (e.0, e.1.1)).len() == funcs.len());
    }
    for k in 0..table.len()
        invariant
            funcs == function_table_items(*functions),
            table@.len() == funcs.len(),
            table@.map_values(|e: (u64, Vec<SdbXref>)| (e.0, e.1@)) == funcs.map_values(
                |e: (u64, FunctionView)| (e.0, e.1.1),
            ),
            handle_map_items(handles) == handles_upto(imports@, funcs, k as int),
    {
        let xs = &table[k].1;
        proof {
            assert(xs@ == funcs[k as int].1.1) by {
                assert(table@.map_values(|e: (u64, Vec<SdbXref>)| (e.0, e.1@))[k as int] == funcs.map_values(
                    |e: (u64, FunctionView)| (e.0, e.1.1),
                )[k as int]);
                assert(table@.map_values(|e: (u64, Vec<SdbXref>)| (e.0, e.1@))[k as int] == (table@[k as int].0, table@[k as int].1@));
                assert(funcs.map_values(|e: (u64, FunctionView)| (e.0, e.1.1))[k as int] == (funcs[k as int].0, funcs[k as int].1.1));
            };
        }
        let ghost before = handle_map_items(handles);
        for j in 0..xs.len()
            invariant
                funcs == function_table_items(*functions),
                handle_map_items(handles) == handles_from(imports@, funcs, before, xs@, j as int),
        {
            let x = xs[j];
            if x.xref_kind == XrefKind::Call {
                match resolve_call_name(imports, functions, x.to_addr) {
                    Some(n) => {
                        if classify_handle_api(n.as_str()) == HandleApiKind::Acquire {
                            let mut id = String::new();
                            id.append("handle_");
                            push_hex_lower(&mut id, x.from_addr);
                            let key = id.clone();
                            handle_map_insert(
                                &mut handles,
                                key,
                                HandleLifecycle {
                                    handle_id: id,
                                    acquired_at: x.from_addr,
                                    released_at: None,
                                    usage_sites: Vec::new(),
                                },
                            );
                        }
                    },
                    None => {},
                }
            }
        }
    }
    handles
}

} // verus!
