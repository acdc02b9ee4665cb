//! Proxy functions as source text: one per declaration, each resolving its
//! symbol from the shared library on every call, and the unit that holds
//! them with the imports their signatures need.
use vstd::prelude::*;
use crate::decl::{
    decl_views, default_exceptions, extract_all_spec, DeclView, Declaration, ExtractError,
    Extractor, ForeignBlock, ParamView,
};
use crate::text::{path_prefix_spec, push_path_prefix, same_texts, views};

verus! {

/// `items` with `sep` between each two.
pub open spec fn separated_spec(items: Seq<Seq<char>>, sep: Seq<char>) -> Seq<char>
    decreases items.len(),
{
    if items.len() == 0 {
        Seq::empty()
    } else if items.len() == 1 {
        items[0]
    } else {
        separated_spec(items.drop_last(), sep) + sep + items.last()
    }
}

/// A parameter list, closed by `...` for a variadic signature.
pub open spec fn with_variadic(list: Seq<char>, n: nat, variadic: bool) -> Seq<char> {
    if !variadic {
        list
    } else if n == 0 {
        "..."@
    } else {
        list + ", ..."@
    }
}

pub open spec fn typed_param(p: ParamView) -> Seq<char> {
    p.name + ": "@ + p.ty
}

/// `name: type` for each parameter.
pub open spec fn params_text(d: DeclView) -> Seq<char> {
    with_variadic(
        separated_spec(d.params.map_values(|p: ParamView| typed_param(p)), ", "@),
        d.params.len(),
        d.variadic,
    )
}

/// The parameter types alone, as in a function-pointer type.
pub open spec fn types_text(d: DeclView) -> Seq<char> {
    with_variadic(separated_spec(d.params.map_values(|p: ParamView| p.ty), ", "@), d.params.len(), d.variadic)
}

/// The parameter names, forwarded in order.
pub open spec fn args_text(d: DeclView) -> Seq<char> {
    separated_spec(d.params.map_values(|p: ParamView| p.name), ", "@)
}

/// Safety and calling-convention qualifiers, each followed by a space.
pub open spec fn qualifiers_text(d: DeclView) -> Seq<char> {
    (if d.is_unsafe {
        "unsafe "@
    } else {
        Seq::empty()
    }) + "extern \""@ + d.abi + "\" "@
}

/// The function-pointer type that the symbol is looked up as.
pub open spec fn fn_type_text(d: DeclView) -> Seq<char> {
    qualifiers_text(d) + "fn("@ + types_text(d) + ") -> "@ + d.output
}

/// The proxy for `d`: same name and signature, exported unmangled; its body
/// looks the symbol up by its literal name, aborts naming it when missing,
/// and calls it with every parameter in order.
pub open spec fn proxy_text(d: DeclView) -> Seq<char> {
    "#[no_mangle]\npub "@ + qualifiers_text(d) + "fn "@ + d.name + "("@ + params_text(d) + ") -> "@
        + d.output + " {\n    let entry = unsafe {\n        crate::proxy::SHARED_LIB.get::<"@
        + fn_type_text(d) + ">(\""@ + d.name + "\".as_bytes())\n    }\n    .expect(\""@ + d.name
        + "\");\n    entry("@ + args_text(d) + ")\n}\n"@
}

/// The module paths that the generated unit imports, before duplicates are
/// removed: the crate root, its prelude, then each declaration's module.
pub open spec fn import_candidates(decls: Seq<DeclView>, root: Seq<char>) -> Seq<Seq<Seq<char>>> {
    seq![seq![root], seq![root, "prelude"@]] + decls.map_values(|d: DeclView| d.mod_path)
}

/// `s` without repeats, each kept where it first occurs.
pub open spec fn dedup_spec(s: Seq<Seq<Seq<char>>>) -> Seq<Seq<Seq<char>>>
    decreases s.len(),
{
    if s.len() == 0 {
        Seq::empty()
    } else {
        let p = dedup_spec(s.drop_last());
        if p.contains(s.last()) {
            p
        } else {
            p.push(s.last())
        }
    }
}

pub open spec fn path_views(s: Seq<Vec<String>>) -> Seq<Seq<Seq<char>>> {
    s.map_values(|v: Vec<String>| views(v@))
}

/// The wildcard import of one module path.
pub open spec fn import_text(path: Seq<Seq<char>>) -> Seq<char> {
    "use "@ + path_prefix_spec(path) + "*;\n"@
}

pub open spec fn imports_text(paths: Seq<Seq<Seq<char>>>) -> Seq<char>
    decreases paths.len(),
{
    if paths.len() == 0 {
        Seq::empty()
    } else {
        imports_text(paths.drop_last()) + import_text(paths.last())
    }
}

pub open spec fn functions_text(fns: Seq<Seq<char>>) -> Seq<char>
    decreases fns.len(),
{
    if fns.len() == 0 {
        Seq::empty()
    } else {
        functions_text(fns.drop_last()) + "\n"@ + fns.last()
    }
}

/// Joins `items`, putting `sep` between each two.
pub fn join_texts(items: &Vec<String>, sep: &str) -> (r: String)
    ensures
        r@ == separated_spec(views(items@), sep@),
{
    let mut r = String::new();
    let mut i: usize = 0;
    assert(views(items@).subrange(0, 0) =~= Seq::<Seq<char>>::empty());
    while i < items.len()
        invariant
            i <= items@.len(),
            r@ == separated_spec(views(items@).subrange(0, i as int), sep@),
        decreases items@.len() - i,
    {
        let ghost s = views(items@).subrange(0, i + 1);
        proof {
            assert(s.drop_last() =~= views(items@).subrange(0, i as int));
            assert(s.last() == items@[i as int]@);
        }
        if i == 0 {
            r = items[i].clone();
            assert(r@ =~= separated_spec(s, sep@));
        } else {
            r.append(sep);
            r.append(items[i].as_str());
            assert(r@ =~= separated_spec(s, sep@));
        }
        i = i + 1;
    }
    assert(views(items@).subrange(0, i as int) =~= views(items@));
    r
}

/// Appends the variadic marker where the signature has one.
fn close_params(list: String, n: usize, variadic: bool) -> (r: String)
    ensures
        r@ == with_variadic(list@, n as nat, variadic),
{
    if !variadic {
        list
    } else if n == 0 {
        String::from_str("...")
    } else {
        list.concat(", ...")
    }
}

/// The source text of the proxy for `d`.
pub fn proxy_fn(d: &Declaration) -> (r: String)
    ensures
        r@ == proxy_text(d@),
{
    let ghost dv = d@;
    let mut typed: Vec<String> = Vec::new();
    let mut types: Vec<String> = Vec::new();
    let mut names: Vec<String> = Vec::new();
    let mut i: usize = 0;
    while i < d.params.len()
        invariant
            i <= d.params@.len() == dv.params.len(),
            dv == d@,
            views(typed@) == dv.params.map_values(|p: ParamView| typed_param(p)).subrange(0, i as int),
            views(types@) == dv.params.map_values(|p: ParamView| p.ty).subrange(0, i as int),
            views(names@) == dv.params.map_values(|p: ParamView| p.name).subrange(0, i as int),
        decreases d.params@.len() - i,
    {
        let p = &d.params[i];
        assert(dv.params[i as int] == p@);
        let t = p.name.clone().concat(": ").concat(p.ty.as_str());
        let ghost (a, b, c) = (typed@, types@, names@);
        typed.push(t);
        types.push(p.ty.clone());
        names.push(p.name.clone());
        proof {
            assert(views(typed@) =~= views(a).push(t@));
            assert(views(types@) =~= views(b).push(p.ty@));
            assert(views(names@) =~= views(c).push(p.name@));
            assert(dv.params.map_values(|p: ParamView| typed_param(p)).subrange(0, i + 1)
                =~= dv.params.map_values(|p: ParamView| typed_param(p)).subrange(0, i as int).push(
                typed_param(p@),
            ));
            assert(dv.params.map_values(|p: ParamView| p.ty).subrange(0, i + 1)
                =~= dv.params.map_values(|p: ParamView| p.ty).subrange(0, i as int).push(p.ty@));
            assert(dv.params.map_values(|p: ParamView| p.name).subrange(0, i + 1)
                =~= dv.params.map_values(|p: ParamView| p.name).subrange(0, i as int).push(
                p.name@,
            ));
        }
        i = i + 1;
    }
    proof {
        assert(dv.params.map_values(|p: ParamView| typed_param(p)).subrange(0, i as int)
            =~= dv.params.map_values(|p: ParamView| typed_param(p)));
        assert(dv.params.map_values(|p: ParamView| p.ty).subrange(0, i as int) =~= dv.params.map_values(
            |p: ParamView| p.ty,
        ));
        assert(dv.params.map_values(|p: ParamView| p.name).subrange(0, i as int)
            =~= dv.params.map_values(|p: ParamView| p.name));
    }
    let n = d.params.len();
    let params = close_params(join_texts(&typed, ", "), n, d.variadic);
    let type_list = close_params(join_texts(&types, ", "), n, d.variadic);
    let args = join_texts(&names, ", ");
    let mut quals = if d.is_unsafe {
        String::from_str("unsafe ")
    } else {
        String::new()
    };
    quals.append("extern \"");
    quals.append(d.abi.as_str());
    quals.append("\" ");
    assert(quals@ =~= qualifiers_text(dv));
    let mut r = String::from_str("#[no_mangle]\npub ");
    r.append(quals.as_str());
    r.append("fn ");
    r.append(d.name.as_str());
    r.append("(");
    r.append(params.as_str());
    r.append(") -> ");
    r.append(d.output.as_str());
    r.append(" {\n    let entry = unsafe {\n        crate::proxy::SHARED_LIB.get::<");
    r.append(quals.as_str());
    r.append("fn(");
    r.append(type_list.as_str());
    r.append(") -> ");
    r.append(d.output.as_str());
    r.append(">(\"");
    r.append(d.name.as_str());
    r.append("\".as_bytes())\n    }\n    .expect(\"");
    r.append(d.name.as_str());
    r.append("\");\n    entry(");
    r.append(args.as_str());
    r.append(")\n}\n");
    assert(r@ =~= proxy_text(dv));
    r
}


/// The generated source unit: the module paths to import, each once, and
/// one proxy per declaration, in the declarations' order.
pub struct GeneratedUnit {
    pub imports: Vec<Vec<String>>,
    pub functions: Vec<String>,
}

/// Whether `paths` already holds `p`.
fn holds_path(paths: &Vec<Vec<String>>, p: &Vec<String>) -> (r: bool)
    ensures
        r == path_views(paths@).contains(views(p@)),
{
    let mut i: usize = 0;
    while i < paths.len()
        invariant
            i <= paths@.len(),
            forall|j: int| 0 <= j < i ==> views(paths@[j]@) != views(p@),
        decreases paths@.len() - i,
    {
        if same_texts(&paths[i], p) {
            assert(path_views(paths@)[i as int] == views(p@));
            return true;
        }
        i = i + 1;
    }
    proof {
        if path_views(paths@).contains(views(p@)) {
            let j = choose|j: int|
                0 <= j < path_views(paths@).len() && path_views(paths@)[j] == views(p@);
            assert(views(paths@[j]@) == views(p@));
        }
    }
    false
}

/// The generated unit for `decls`, whose modules all lie under the crate
/// called `root`.
pub fn generate(decls: &Vec<Declaration>, root: &str) -> (r: GeneratedUnit)
    ensures
        path_views(r.imports@) == dedup_spec(import_candidates(decl_views(decls@), root@)),
        views(r.functions@) == decl_views(decls@).map_values(|d: DeclView| proxy_text(d)),
{
    let ghost ds = decl_views(decls@);
    let mut candidates: Vec<Vec<String>> = Vec::new();
    let mut root_path: Vec<String> = Vec::new();
    root_path.push(String::from_str(root));
    let mut prelude_path: Vec<String> = Vec::new();
    prelude_path.push(String::from_str(root));
    prelude_path.push(String::from_str("prelude"));
    candidates.push(root_path);
    candidates.push(prelude_path);
    let mut functions: Vec<String> = Vec::new();
    let mut i: usize = 0;
    proof {
        assert(views(candidates@[0]@) =~= seq![root@]);
        assert(views(candidates@[1]@) =~= seq![root@, "prelude"@]);
        assert(path_views(candidates@) =~= import_candidates(ds.subrange(0, 0), root@));
        assert(views(functions@) =~= ds.map_values(|d: DeclView| proxy_text(d)).subrange(0, 0));
    }
    while i < decls.len()
        invariant
            i <= decls@.len() == ds.len(),
            ds == decl_views(decls@),
            path_views(candidates@) == import_candidates(ds.subrange(0, i as int), root@),
            views(functions@) == ds.map_values(|d: DeclView| proxy_text(d)).subrange(0, i as int),
        decreases decls@.len() - i,
    {
        let d = &decls[i];
        assert(ds[i as int] == d@);
        let f = proxy_fn(d);
        let ghost (a, b) = (candidates@, functions@);
        candidates.push(d.mod_path.clone());
        functions.push(f);
        proof {
            assert(path_views(candidates@) =~= path_views(a).push(d@.mod_path));
            assert(ds.subrange(0, i + 1) =~= ds.subrange(0, i as int).push(d@));
            assert(import_candidates(ds.subrange(0, i + 1), root@) =~= import_candidates(
                ds.subrange(0, i as int),
                root@,
            ).push(d@.mod_path));
            assert(views(functions@) =~= views(b).push(f@));
            assert(ds.map_values(|d: DeclView| proxy_text(d)).subrange(0, i + 1)
                =~= ds.map_values(|d: DeclView| proxy_text(d)).subrange(0, i as int).push(
                proxy_text(d@),
            ));
        }
        i = i + 1;
    }
    proof {
        assert(ds.subrange(0, i as int) =~= ds);
        assert(ds.map_values(|d: DeclView| proxy_text(d)).subrange(0, i as int) =~= ds.map_values(
            |d: DeclView| proxy_text(d),
        ));
    }
    let ghost cs = path_views(candidates@);
    let mut imports: Vec<Vec<String>> = Vec::new();
    let mut k: usize = 0;
    assert(cs.subrange(0, 0) =~= Seq::<Seq<Seq<char>>>::empty());
    assert(path_views(imports@) =~= Seq::<Seq<Seq<char>>>::empty());
    while k < candidates.len()
        invariant
            k <= candidates@.len() == cs.len(),
            cs == path_views(candidates@),
            path_views(imports@) == dedup_spec(cs.subrange(0, k as int)),
        decreases candidates@.len() - k,
    {
        let ghost s = cs.subrange(0, k + 1);
        proof {
            assert(s.drop_last() =~= cs.subrange(0, k as int));
            assert(s.last() == views(candidates@[k as int]@));
        }
        if !holds_path(&imports, &candidates[k]) {
            let ghost a = imports@;
            imports.push(candidates[k].clone());
            assert(path_views(imports@) =~= path_views(a).push(views(candidates@[k as int]@)));
        }
        k = k + 1;
    }
    assert(cs.subrange(0, k as int) =~= cs);
    GeneratedUnit { imports, functions }
}

impl GeneratedUnit {
    pub open spec fn text_spec(&self) -> Seq<char> {
        imports_text(path_views(self.imports@)) + functions_text(views(self.functions@))
    }

    /// The unit as one source text: the imports, then each function after
    /// a blank line.
    pub fn render(&self) -> (r: String)
        ensures
            r@ == self.text_spec(),
    {
        let mut r = String::new();
        let ghost ps = path_views(self.imports@);
        let mut i: usize = 0;
        assert(ps.subrange(0, 0) =~= Seq::<Seq<Seq<char>>>::empty());
        while i < self.imports.len()
            invariant
                i <= self.imports@.len() == ps.len(),
                ps == path_views(self.imports@),
                r@ == imports_text(ps.subrange(0, i as int)),
            decreases self.imports@.len() - i,
        {
            let ghost s = ps.subrange(0, i + 1);
            proof {
                assert(s.drop_last() =~= ps.subrange(0, i as int));
                assert(s.last() == views(self.imports@[i as int]@));
            }
            r.append("use ");
            push_path_prefix(&mut r, &self.imports[i]);
            r.append("*;\n");
            assert(r@ =~= imports_text(s));
            i = i + 1;
        }
        assert(ps.subrange(0, i as int) =~= ps);
        let ghost head = r@;
        let ghost fs = views(self.functions@);
        let mut j: usize = 0;
        assert(fs.subrange(0, 0) =~= Seq::<Seq<char>>::empty());
        assert(r@ =~= head + functions_text(fs.subrange(0, 0)));
        while j < self.functions.len()
            invariant
                j <= self.functions@.len() == fs.len(),
                fs == views(self.functions@),
                r@ == head + functions_text(fs.subrange(0, j as int)),
            decreases self.functions@.len() - j,
        {
            let ghost s = fs.subrange(0, j + 1);
            proof {
                assert(s.drop_last() =~= fs.subrange(0, j as int));
                assert(s.last() == self.functions@[j as int]@);
            }
            r.append("\n");
            r.append(self.functions[j].as_str());
            assert(r@ =~= head + functions_text(s));
            j = j + 1;
        }
        assert(fs.subrange(0, j as int) =~= fs);
        r
    }
}

/// The text of the unit generated for `ds` under crate `root`.
pub open spec fn unit_text_spec(ds: Seq<DeclView>, root: Seq<char>) -> Seq<char> {
    imports_text(dedup_spec(import_candidates(ds, root))) + functions_text(
        ds.map_values(|d: DeclView| proxy_text(d)),
    )
}

/// The whole build step short of writing the file: extracts the
/// declarations of `blocks`, in order, and renders the unit of their proxies.
pub fn generate_source(blocks: &Vec<ForeignBlock>, root: &str) -> (r: Result<String, ExtractError>)
    ensures
        match extract_all_spec(Seq::empty(), blocks@, default_exceptions()) {
            Ok(ds) => r matches Ok(text) && text@ == unit_text_spec(ds, root@),
            Err(e) => r matches Err(x) && x@ == e,
        },
{
    let mut extractor = Extractor::new();
    assert(decl_views(extractor.decls@) =~= Seq::<DeclView>::empty());
    match extractor.add_blocks(blocks) {
        Err(e) => Err(e),
        Ok(()) => {
            let unit = generate(extractor.declarations(), root);
            Ok(unit.render())
        },
    }
}

} // verus!
