//! Foreign function declarations, and their extraction from foreign blocks
//! into one set keyed by name.
use vstd::prelude::*;
use crate::text::{path_prefix_spec, push_path_prefix, same_text, views};

verus! {

/// One named parameter of a foreign function.
pub struct Param {
    pub name: String,
    pub ty: String,
}

pub struct ParamView {
    pub name: Seq<char>,
    pub ty: Seq<char>,
}

impl View for Param {
    type V = ParamView;

    open spec fn view(&self) -> ParamView {
        ParamView { name: self.name@, ty: self.ty@ }
    }
}

pub open spec fn param_views(ps: Seq<Param>) -> Seq<ParamView> {
    ps.map_values(|p: Param| p@)
}

/// A function signature as written inside a foreign block.
pub struct ForeignFn {
    pub name: String,
    pub params: Vec<Param>,
    pub variadic: bool,
    /// Return type; `None` when the signature gives none.
    pub output: Option<String>,
    /// Whether the signature itself is marked unsafe.
    pub is_unsafe: bool,
    /// The signature's own calling convention, if it names one.
    pub abi: Option<String>,
}

/// A foreign block: a group of signatures sharing qualifiers, found in the
/// module at `mod_path`.
pub struct ForeignBlock {
    pub mod_path: Vec<String>,
    pub is_unsafe: bool,
    /// The block's calling convention, such as `C`.
    pub abi: String,
    pub functions: Vec<ForeignFn>,
}

/// A retained declaration, with the block's qualifiers applied.
pub struct Declaration {
    pub mod_path: Vec<String>,
    pub name: String,
    pub params: Vec<Param>,
    pub variadic: bool,
    /// Return type; `()` when the signature gave none.
    pub output: String,
    pub is_unsafe: bool,
    pub abi: String,
}

pub struct DeclView {
    pub mod_path: Seq<Seq<char>>,
    pub name: Seq<char>,
    pub params: Seq<ParamView>,
    pub variadic: bool,
    pub output: Seq<char>,
    pub is_unsafe: bool,
    pub abi: Seq<char>,
}

impl View for Declaration {
    type V = DeclView;

    open spec fn view(&self) -> DeclView {
        DeclView {
            mod_path: views(self.mod_path@),
            name: self.name@,
            params: param_views(self.params@),
            variadic: self.variadic,
            output: self.output@,
            is_unsafe: self.is_unsafe,
            abi: self.abi@,
        }
    }
}

pub open spec fn decl_views(ds: Seq<Declaration>) -> Seq<DeclView> {
    ds.map_values(|d: Declaration| d@)
}

/// The target-initialization entry points that have no exported symbol of
/// their own and are never proxied.
pub open spec fn is_init_wrapper(name: Seq<char>) -> bool {
    name == "LLVM_InitializeAllTargetInfos"@ || name == "LLVM_InitializeAllTargets"@ || name
        == "LLVM_InitializeAllTargetMCs"@ || name == "LLVM_InitializeAllAsmPrinters"@ || name
        == "LLVM_InitializeAllAsmParsers"@ || name == "LLVM_InitializeAllDisassemblers"@ || name
        == "LLVM_InitializeNativeTarget"@ || name == "LLVM_InitializeNativeAsmParser"@ || name
        == "LLVM_InitializeNativeAsmPrinter"@ || name == "LLVM_InitializeNativeDisassembler"@
}

/// A parameter name as it appears in generated code: `Err` would shadow the
/// result variant, so it becomes `Error`.
pub open spec fn param_name_spec(name: Seq<char>) -> Seq<char> {
    if name == "Err"@ {
        "Error"@
    } else {
        name
    }
}

pub open spec fn rename_params(ps: Seq<ParamView>) -> Seq<ParamView> {
    ps.map_values(|p: ParamView| ParamView { name: param_name_spec(p.name), ty: p.ty })
}

/// The declaration that signature `f` of `block` yields.
pub open spec fn declare_spec(f: ForeignFn, block: ForeignBlock) -> DeclView {
    DeclView {
        mod_path: views(block.mod_path@),
        name: f.name@,
        params: rename_params(param_views(f.params@)),
        variadic: f.variadic,
        output: match f.output {
            Some(t) => t@,
            None => "()"@,
        },
        is_unsafe: f.is_unsafe || block.is_unsafe,
        abi: match f.abi {
            Some(a) => a@,
            None => block.abi@,
        },
    }
}

/// Index of the last declaration called `name`, or -1.
pub open spec fn find_name(ds: Seq<DeclView>, name: Seq<char>) -> int
    decreases ds.len(),
{
    if ds.len() == 0 {
        -1
    } else if ds.last().name == name {
        ds.len() - 1
    } else {
        find_name(ds.drop_last(), name)
    }
}

/// No two declarations share a name.
pub open spec fn names_unique(ds: Seq<DeclView>) -> bool {
    forall|i: int, j: int| 0 <= i < j < ds.len() ==> ds[i].name != ds[j].name
}

pub enum ExtractErrorView {
    Duplicate { name: Seq<char>, first: Seq<Seq<char>>, second: Seq<Seq<char>> },
}

/// Adds `d` to `ds`: a second declaration of a name on the exception list is
/// dropped, of any other name is an error.
pub open spec fn insert_spec(ds: Seq<DeclView>, d: DeclView, exceptions: Seq<Seq<char>>) -> Result<
    Seq<DeclView>,
    ExtractErrorView,
> {
    let k = find_name(ds, d.name);
    if k < 0 {
        Ok(ds.push(d))
    } else if exceptions.contains(d.name) {
        Ok(ds)
    } else {
        Err(ExtractErrorView::Duplicate { name: d.name, first: ds[k].mod_path, second: d.mod_path })
    }
}

/// The declarations after the first `n` signatures of `block` are taken in
/// order, starting from `ds`.
pub open spec fn extract_spec(
    ds: Seq<DeclView>,
    block: ForeignBlock,
    n: int,
    exceptions: Seq<Seq<char>>,
) -> Result<Seq<DeclView>, ExtractErrorView>
    decreases n,
{
    if n <= 0 {
        Ok(ds)
    } else {
        match extract_spec(ds, block, n - 1, exceptions) {
            Err(e) => Err(e),
            Ok(prev) => {
                let f = block.functions@[n - 1];
                if is_init_wrapper(f.name@) {
                    Ok(prev)
                } else {
                    insert_spec(prev, declare_spec(f, block), exceptions)
                }
            },
        }
    }
}


/// The declarations after every block of `blocks` is taken in order,
/// starting from `ds`.
pub open spec fn extract_all_spec(
    ds: Seq<DeclView>,
    blocks: Seq<ForeignBlock>,
    exceptions: Seq<Seq<char>>,
) -> Result<Seq<DeclView>, ExtractErrorView>
    decreases blocks.len(),
{
    if blocks.len() == 0 {
        Ok(ds)
    } else {
        match extract_all_spec(ds, blocks.drop_last(), exceptions) {
            Err(e) => Err(e),
            Ok(prev) => extract_spec(
                prev,
                blocks.last(),
                blocks.last().functions@.len() as int,
                exceptions,
            ),
        }
    }
}

/// The one LLVM declaration known to appear twice.
pub open spec fn default_exceptions() -> Seq<Seq<char>> {
    seq!["LLVMAddInstructionCombiningPass"@]
}

pub proof fn lemma_find_name(ds: Seq<DeclView>, name: Seq<char>)
    ensures
        -1 <= find_name(ds, name) < ds.len(),
        find_name(ds, name) >= 0 ==> ds[find_name(ds, name)].name == name,
        find_name(ds, name) < 0 ==> forall|i: int| 0 <= i < ds.len() ==> ds[i].name != name,
    decreases ds.len(),
{
    if ds.len() > 0 {
        lemma_find_name(ds.drop_last(), name);
        if find_name(ds, name) < 0 {
            assert forall|i: int| 0 <= i < ds.len() implies ds[i].name != name by {
                if i < ds.len() - 1 {
                    assert(ds.drop_last()[i] == ds[i]);
                }
            }
        }
    }
}

/// Once extraction has failed, later signatures do not change the error.
pub proof fn lemma_extract_error_stays(
    ds: Seq<DeclView>,
    block: ForeignBlock,
    n: int,
    m: int,
    exceptions: Seq<Seq<char>>,
)
    requires
        n <= m,
        extract_spec(ds, block, n, exceptions) is Err,
    ensures
        extract_spec(ds, block, m, exceptions) == extract_spec(ds, block, n, exceptions),
    decreases m - n,
{
    if n < m {
        lemma_extract_error_stays(ds, block, n, m - 1, exceptions);
    }
}

/// Why extraction stopped.
pub enum ExtractError {
    /// Two declarations share `name`; `first` and `second` are the module
    /// paths of the earlier and the later one.
    Duplicate { name: String, first: Vec<String>, second: Vec<String> },
}

impl View for ExtractError {
    type V = ExtractErrorView;

    open spec fn view(&self) -> ExtractErrorView {
        match self {
            ExtractError::Duplicate { name, first, second } => ExtractErrorView::Duplicate {
                name: name@,
                first: views(first@),
                second: views(second@),
            },
        }
    }
}

impl ExtractError {
    pub open spec fn message_spec(&self) -> Seq<char> {
        match self {
            ExtractError::Duplicate { name, first, second } => "duplicate function `"@
                + path_prefix_spec(views(second@)) + name@ + "` `"@ + path_prefix_spec(views(first@))
                + name@ + "`"@,
        }
    }

    /// A diagnostic naming both conflicting declarations by their full paths.
    pub fn message(&self) -> (r: String)
        ensures
            r@ == self.message_spec(),
    {
        match self {
            ExtractError::Duplicate { name, first, second } => {
                let mut r = String::from_str("duplicate function `");
                push_path_prefix(&mut r, second);
                r.append(name.as_str());
                r.append("` `");
                push_path_prefix(&mut r, first);
                r.append(name.as_str());
                r.append("`");
                r
            },
        }
    }
}

/// Whether `name` is one of the target-initialization entry points.
pub fn is_init_wrapper_name(name: &str) -> (r: bool)
    ensures
        r == is_init_wrapper(name@),
{
    same_text(name, "LLVM_InitializeAllTargetInfos") || same_text(name, "LLVM_InitializeAllTargets")
        || same_text(name, "LLVM_InitializeAllTargetMCs") || same_text(
        name,
        "LLVM_InitializeAllAsmPrinters",
    ) || same_text(name, "LLVM_InitializeAllAsmParsers") || same_text(
        name,
        "LLVM_InitializeAllDisassemblers",
    ) || same_text(name, "LLVM_InitializeNativeTarget") || same_text(
        name,
        "LLVM_InitializeNativeAsmParser",
    ) || same_text(name, "LLVM_InitializeNativeAsmPrinter") || same_text(
        name,
        "LLVM_InitializeNativeDisassembler",
    )
}

/// The name a parameter gets in generated code.
pub fn param_name(name: &str) -> (r: String)
    ensures
        r@ == param_name_spec(name@),
{
    if same_text(name, "Err") {
        String::from_str("Error")
    } else {
        String::from_str(name)
    }
}

/// The declaration that signature `f` of `block` yields.
pub fn declare(f: &ForeignFn, block: &ForeignBlock) -> (r: Declaration)
    ensures
        r@ == declare_spec(*f, *block),
{
    let mut params: Vec<Param> = Vec::new();
    let mut i: usize = 0;
    while i < f.params.len()
        invariant
            i <= f.params@.len(),
            param_views(params@) == rename_params(param_views(f.params@)).subrange(0, i as int),
        decreases f.params@.len() - i,
    {
        let p = &f.params[i];
        let q = Param { name: param_name(p.name.as_str()), ty: p.ty.clone() };
        let ghost before = params@;
        params.push(q);
        proof {
            let all = rename_params(param_views(f.params@));
            assert(param_views(params@) =~= param_views(before).push(q@));
            assert(all.subrange(0, i + 1) =~= all.subrange(0, i as int).push(all[i as int]));
        }
        i = i + 1;
    }
    proof {
        let all = rename_params(param_views(f.params@));
        assert(all.subrange(0, i as int) =~= all);
    }
    let output = match &f.output {
        Some(t) => t.clone(),
        None => String::from_str("()"),
    };
    let abi = match &f.abi {
        Some(a) => a.clone(),
        None => block.abi.clone(),
    };
    Declaration {
        mod_path: block.mod_path.clone(),
        name: f.name.clone(),
        params,
        variadic: f.variadic,
        output,
        is_unsafe: f.is_unsafe || block.is_unsafe,
        abi,
    }
}

/// The declarations gathered so far, keyed by name, and the names whose
/// second declaration is dropped rather than refused.
pub struct Extractor {
    pub decls: Vec<Declaration>,
    pub exceptions: Vec<String>,
}

impl Extractor {
    pub open spec fn wf(&self) -> bool {
        names_unique(decl_views(self.decls@))
    }

    /// An empty set, with the one known duplicated LLVM declaration excepted.
    pub fn new() -> (r: Extractor)
        ensures
            r.wf(),
            r.decls@.len() == 0,
            views(r.exceptions@) == default_exceptions(),
    {
        let mut exceptions: Vec<String> = Vec::new();
        exceptions.push(String::from_str("LLVMAddInstructionCombiningPass"));
        assert(views(exceptions@) =~= default_exceptions());
        Extractor { decls: Vec::new(), exceptions }
    }

    /// An empty set with the given exception list.
    pub fn with_exceptions(exceptions: Vec<String>) -> (r: Extractor)
        ensures
            r.wf(),
            r.decls@.len() == 0,
            r.exceptions == exceptions,
    {
        Extractor { decls: Vec::new(), exceptions }
    }

    /// The declarations retained so far, in the order first seen.
    pub fn declarations(&self) -> (r: &Vec<Declaration>)
        ensures
            r == &self.decls,
    {
        &self.decls
    }

    /// Position of the declaration called `name`.
    fn position(&self, name: &str) -> (r: Option<usize>)
        ensures
            r is None ==> find_name(decl_views(self.decls@), name@) < 0,
            r matches Some(k) ==> k == find_name(decl_views(self.decls@), name@),
    {
        let ghost ds = decl_views(self.decls@);
        let mut i: usize = self.decls.len();
        assert(ds.subrange(0, i as int) =~= ds);
        while i > 0
            invariant
                i <= self.decls@.len() == ds.len(),
                ds == decl_views(self.decls@),
                find_name(ds.subrange(0, i as int), name@) == find_name(ds, name@),
            decreases i,
        {
            let ghost pre = ds.subrange(0, i as int);
            assert(pre.last() == self.decls@[i - 1]@);
            if same_text(self.decls[i - 1].name.as_str(), name) {
                return Some(i - 1);
            }
            assert(pre.drop_last() =~= ds.subrange(0, i - 1));
            i = i - 1;
        }
        None
    }

    fn is_exception(&self, name: &str) -> (r: bool)
        ensures
            r == views(self.exceptions@).contains(name@),
    {
        let mut i: usize = 0;
        while i < self.exceptions.len()
            invariant
                i <= self.exceptions@.len(),
                forall|j: int| 0 <= j < i ==> self.exceptions@[j]@ != name@,
            decreases self.exceptions@.len() - i,
        {
            if same_text(self.exceptions[i].as_str(), name) {
                assert(views(self.exceptions@)[i as int] == name@);
                return true;
            }
            i = i + 1;
        }
        proof {
            if views(self.exceptions@).contains(name@) {
                let j = choose|j: int| 0 <= j < views(self.exceptions@).len() && views(self.exceptions@)[j] == name@;
                assert(self.exceptions@[j]@ == name@);
            }
        }
        false
    }

    /// Takes every signature of `block`, in order: the initialization
    /// wrappers are skipped, each other one is added under its name.
    pub fn add_block(&mut self, block: &ForeignBlock) -> (r: Result<(), ExtractError>)
        requires
            old(self).wf(),
        ensures
            final(self).exceptions == old(self).exceptions,
            match extract_spec(
                decl_views(old(self).decls@),
                *block,
                block.functions@.len() as int,
                views(old(self).exceptions@),
            ) {
                Ok(ds) => r is Ok && decl_views(final(self).decls@) == ds && final(self).wf(),
                Err(e) => r matches Err(x) && x@ == e,
            },
    {
        let ghost start = decl_views(self.decls@);
        let ghost exc = views(self.exceptions@);
        let mut i: usize = 0;
        while i < block.functions.len()
            invariant
                i <= block.functions@.len(),
                self.wf(),
                self.exceptions == old(self).exceptions,
                exc == views(self.exceptions@),
                start == decl_views(old(self).decls@),
                extract_spec(start, *block, i as int, exc) == Ok::<Seq<DeclView>, ExtractErrorView>(
                    decl_views(self.decls@),
                ),
            decreases block.functions@.len() - i,
        {
            let f = &block.functions[i];
            if !is_init_wrapper_name(f.name.as_str()) {
                let d = declare(f, block);
                let ghost ds = decl_views(self.decls@);
                proof {
                    lemma_find_name(ds, d.name@);
                }
                match self.position(d.name.as_str()) {
                    None => {
                        let ghost dv = d@;
                        self.decls.push(d);
                        proof {
                            assert(decl_views(self.decls@) =~= ds.push(dv));
                        }
                    },
                    Some(k) => {
                        if !self.is_exception(d.name.as_str()) {
                            assert(ds[k as int] == self.decls@[k as int]@);
                            let first = self.decls[k].mod_path.clone();
                            proof {
                                assert(block.functions@[i as int] == *f);
                                assert(!is_init_wrapper(f.name@));
                                assert(extract_spec(start, *block, i + 1, exc) == insert_spec(
                                    ds,
                                    d@,
                                    exc,
                                ));
                                assert(views(first@) == ds[k as int].mod_path);
                                lemma_extract_error_stays(
                                    start,
                                    *block,
                                    i + 1,
                                    block.functions@.len() as int,
                                    exc,
                                );
                            }
                            let ghost dv = d@;
                            let err = ExtractError::Duplicate {
                                name: d.name,
                                first,
                                second: d.mod_path,
                            };
                            assert(insert_spec(ds, dv, exc) == Err::<Seq<DeclView>, ExtractErrorView>(
                                err@,
                            ));
                            return Err(err);
                        }
                    },
                }
            }
            i = i + 1;
        }
        Ok(())
    }

    /// Takes every block of `blocks`, in order.
    pub fn add_blocks(&mut self, blocks: &Vec<ForeignBlock>) -> (r: Result<(), ExtractError>)
        requires
            old(self).wf(),
        ensures
            match extract_all_spec(decl_views(old(self).decls@), blocks@, views(old(self).exceptions@)) {
                Ok(ds) => r is Ok && decl_views(final(self).decls@) == ds && final(self).wf(),
                Err(e) => r matches Err(x) && x@ == e,
            },
    {
        let ghost start = decl_views(self.decls@);
        let ghost exc = views(self.exceptions@);
        let mut i: usize = 0;
        assert(blocks@.subrange(0, 0) =~= Seq::<ForeignBlock>::empty());
        while i < blocks.len()
            invariant
                i <= blocks@.len(),
                self.wf(),
                exc == views(self.exceptions@),
                exc == views(old(self).exceptions@),
                start == decl_views(old(self).decls@),
                extract_all_spec(start, blocks@.subrange(0, i as int), exc) == Ok::<
                    Seq<DeclView>,
                    ExtractErrorView,
                >(decl_views(self.decls@)),
            decreases blocks@.len() - i,
        {
            let ghost s = blocks@.subrange(0, i + 1);
            assert(s.drop_last() =~= blocks@.subrange(0, i as int));
            assert(s.last() == blocks@[i as int]);
            match self.add_block(&blocks[i]) {
                Ok(()) => {},
                Err(e) => {
                    proof {
                        lemma_extract_all_error_stays(start, blocks@, i + 1, exc);
                    }
                    return Err(e);
                },
            }
            i = i + 1;
        }
        assert(blocks@.subrange(0, i as int) =~= blocks@);
        Ok(())
    }
}

/// Once extraction has failed on some block, later blocks do not change
/// the error.
pub proof fn lemma_extract_all_error_stays(
    ds: Seq<DeclView>,
    blocks: Seq<ForeignBlock>,
    n: int,
    exceptions: Seq<Seq<char>>,
)
    requires
        0 <= n <= blocks.len(),
        extract_all_spec(ds, blocks.subrange(0, n), exceptions) is Err,
    ensures
        extract_all_spec(ds, blocks, exceptions) == extract_all_spec(ds, blocks.subrange(0, n), exceptions),
    decreases blocks.len() - n,
{
    if n < blocks.len() {
        let s = blocks.subrange(0, n + 1);
        assert(s.drop_last() =~= blocks.subrange(0, n));
        lemma_extract_all_error_stays(ds, blocks, n + 1, exceptions);
    } else {
        assert(blocks.subrange(0, n) =~= blocks);
    }
}

/// Some declaration in `ds` is called `name`.
pub open spec fn has_name(ds: Seq<DeclView>, name: Seq<char>) -> bool {
    exists|i: int| 0 <= i < ds.len() && ds[i].name == name
}

/// A successful extraction keeps every name it started from and adds the
/// name of every signature it took, but for the initialization wrappers.
pub proof fn lemma_names_kept(
    ds: Seq<DeclView>,
    block: ForeignBlock,
    n: int,
    exceptions: Seq<Seq<char>>,
    name: Seq<char>,
    j: int,
)
    requires
        0 <= n <= block.functions@.len(),
        extract_spec(ds, block, n, exceptions) is Ok,
        has_name(ds, name) || (0 <= j < n && !is_init_wrapper(block.functions@[j].name@)
            && block.functions@[j].name@ == name),
    ensures
        has_name(extract_spec(ds, block, n, exceptions)->Ok_0, name),
    decreases n,
{
    if n > 0 {
        let prev = extract_spec(ds, block, n - 1, exceptions)->Ok_0;
        let f = block.functions@[n - 1];
        if has_name(ds, name) || j < n - 1 {
            lemma_names_kept(ds, block, n - 1, exceptions, name, j);
            if !is_init_wrapper(f.name@) {
                let i = choose|i: int| 0 <= i < prev.len() && prev[i].name == name;
                let d = declare_spec(f, block);
                if find_name(prev, d.name) < 0 {
                    assert(prev.push(d)[i].name == name);
                }
            }
        } else {
            let d = declare_spec(f, block);
            lemma_find_name(prev, d.name);
            if find_name(prev, d.name) < 0 {
                assert(prev.push(d)[prev.len() as int].name == name);
            }
        }
    }
}

/// A signature whose name is already declared, before its block or earlier
/// in it, and stands on no exception list makes extraction fail.
pub proof fn lemma_duplicate_refused(
    ds: Seq<DeclView>,
    block: ForeignBlock,
    exceptions: Seq<Seq<char>>,
    j: int,
    k: int,
)
    requires
        0 <= k < block.functions@.len(),
        !is_init_wrapper(block.functions@[k].name@),
        !exceptions.contains(block.functions@[k].name@),
        has_name(ds, block.functions@[k].name@) || (0 <= j < k && block.functions@[j].name@
            == block.functions@[k].name@),
    ensures
        extract_spec(ds, block, block.functions@.len() as int, exceptions) is Err,
{
    let name = block.functions@[k].name@;
    if extract_spec(ds, block, k, exceptions) is Ok {
        lemma_names_kept(ds, block, k, exceptions, name, j);
        let prev = extract_spec(ds, block, k, exceptions)->Ok_0;
        lemma_find_name(prev, name);
        assert(extract_spec(ds, block, k + 1, exceptions) is Err);
        lemma_extract_error_stays(ds, block, k + 1, block.functions@.len() as int, exceptions);
    } else {
        lemma_extract_error_stays(ds, block, k, block.functions@.len() as int, exceptions);
    }
}

/// Declaring a signature renames a parameter called `Err` to `Error`, and
/// keeps every parameter's type and position.
pub proof fn lemma_err_param_renamed(f: ForeignFn, block: ForeignBlock)
    ensures
        declare_spec(f, block).params.len() == f.params@.len(),
        forall|i: int|
            0 <= i < f.params@.len() ==> {
                &&& #[trigger] declare_spec(f, block).params[i].ty == f.params@[i].ty@
                &&& f.params@[i].name@ == "Err"@ ==> declare_spec(f, block).params[i].name
                    == "Error"@
                &&& f.params@[i].name@ != "Err"@ ==> declare_spec(f, block).params[i].name
                    == f.params@[i].name@
            },
{
}

/// The declarations of the first `n` signatures of `block`, in order, but
/// for the initialization wrappers.
pub open spec fn kept_decls(block: ForeignBlock, n: int) -> Seq<DeclView>
    decreases n,
{
    if n <= 0 {
        Seq::empty()
    } else {
        let f = block.functions@[n - 1];
        if is_init_wrapper(f.name@) {
            kept_decls(block, n - 1)
        } else {
            kept_decls(block, n - 1).push(declare_spec(f, block))
        }
    }
}

/// Every declaration in `kept_decls(block, n)` comes from a signature
/// before `n` that is no initialization wrapper.
pub proof fn lemma_kept_names(block: ForeignBlock, n: int, i: int)
    requires
        0 <= n <= block.functions@.len(),
        0 <= i < kept_decls(block, n).len(),
    ensures
        exists|a: int|
            0 <= a < n && !is_init_wrapper(block.functions@[a].name@) && block.functions@[a].name@
                == kept_decls(block, n)[i].name,
    decreases n,
{
    let f = block.functions@[n - 1];
    if !is_init_wrapper(f.name@) && i == kept_decls(block, n - 1).len() {
        assert(block.functions@[n - 1].name@ == kept_decls(block, n)[i].name);
    } else {
        lemma_kept_names(block, n - 1, i);
        let a = choose|a: int|
            0 <= a < n - 1 && !is_init_wrapper(block.functions@[a].name@)
                && block.functions@[a].name@ == kept_decls(block, n - 1)[i].name;
        assert(block.functions@[a].name@ == kept_decls(block, n)[i].name);
    }
}

/// Where the signatures that are no initialization wrappers have distinct
/// names, none of them already declared, extraction yields exactly one
/// declaration for each of them, in order, and none for the wrappers.
pub proof fn lemma_one_declaration_per_signature(
    ds: Seq<DeclView>,
    block: ForeignBlock,
    n: int,
    exceptions: Seq<Seq<char>>,
)
    requires
        0 <= n <= block.functions@.len(),
        forall|a: int, b: int|
            0 <= a < b < block.functions@.len() && !is_init_wrapper(block.functions@[a].name@)
                && !is_init_wrapper(block.functions@[b].name@) ==> block.functions@[a].name@
                != block.functions@[b].name@,
        forall|a: int|
            0 <= a < block.functions@.len() && !is_init_wrapper(block.functions@[a].name@)
                ==> !has_name(ds, block.functions@[a].name@),
    ensures
        extract_spec(ds, block, n, exceptions) == Ok::<Seq<DeclView>, ExtractErrorView>(
            ds + kept_decls(block, n),
        ),
    decreases n,
{
    if n == 0 {
        assert(ds + kept_decls(block, 0) =~= ds);
    } else {
        lemma_one_declaration_per_signature(ds, block, n - 1, exceptions);
        let f = block.functions@[n - 1];
        let prev = ds + kept_decls(block, n - 1);
        if !is_init_wrapper(f.name@) {
            let d = declare_spec(f, block);
            lemma_find_name(prev, d.name);
            if find_name(prev, d.name) >= 0 {
                let i = find_name(prev, d.name);
                if i < ds.len() {
                    assert(ds[i].name == d.name);
                } else {
                    lemma_kept_names(block, n - 1, i - ds.len());
                }
            }
            assert(prev.push(d) =~= ds + kept_decls(block, n));
        }
    }
}

/// Extraction never yields a declaration for an initialization wrapper:
/// where none was declared before, none is declared after.
pub proof fn lemma_no_init_wrapper_declared(
    ds: Seq<DeclView>,
    block: ForeignBlock,
    n: int,
    exceptions: Seq<Seq<char>>,
)
    requires
        0 <= n <= block.functions@.len(),
        extract_spec(ds, block, n, exceptions) is Ok,
        forall|i: int| 0 <= i < ds.len() ==> !is_init_wrapper(#[trigger] ds[i].name),
    ensures
        forall|i: int|
            0 <= i < extract_spec(ds, block, n, exceptions)->Ok_0.len() ==> !is_init_wrapper(
                #[trigger] extract_spec(ds, block, n, exceptions)->Ok_0[i].name,
            ),
    decreases n,
{
    if n > 0 {
        lemma_no_init_wrapper_declared(ds, block, n - 1, exceptions);
        let prev = extract_spec(ds, block, n - 1, exceptions)->Ok_0;
        let f = block.functions@[n - 1];
        if !is_init_wrapper(f.name@) {
            let d = declare_spec(f, block);
            if find_name(prev, d.name) < 0 {
                assert forall|i: int| 0 <= i < prev.push(d).len() implies !is_init_wrapper(
                    #[trigger] prev.push(d)[i].name,
                ) by {
                    if i < prev.len() {
                        assert(prev.push(d)[i] == prev[i]);
                    }
                }
            }
        }
    }
}

} // verus!
