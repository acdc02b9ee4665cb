//! Walking the module tree of a binding crate's sources: which files hold
//! its modules, and which foreign blocks each module holds.
use vstd::prelude::*;
use crate::decl::{ForeignBlock, ForeignFn};
use crate::locate::{join_dir, join_spec, Platform};
use crate::text::views;

verus! {

broadcast use vstd::seq::axiom_seq_index_decreases, vstd::seq::axiom_seq_subrange_decreases;

/// A top-level or nested item of a source file, as far as the walk reads it.
pub enum Item {
    /// A module, with its items where they are written inline.
    Module { name: String, body: Option<Vec<Item>> },
    /// A foreign block: its qualifiers and its signatures.
    Foreign { is_unsafe: bool, abi: String, functions: Vec<ForeignFn> },
    /// A type alias.
    TypeAlias,
    /// A constant, enum, crate reference, macro, struct or import.
    Ignored,
    /// Any other item, as source text.
    Unexpected { text: String },
}

/// What the walk finds, in source order.
pub enum Found {
    /// A foreign block, with the path of the module that holds it.
    Block(ForeignBlock),
    /// A module written in another file: `name` in directory `dir`.
    File { dir: String, name: String, mod_path: Vec<String> },
}

pub enum FoundView {
    Block { mod_path: Seq<Seq<char>>, is_unsafe: bool, abi: Seq<char>, functions: Seq<ForeignFn> },
    File { dir: Seq<char>, name: Seq<char>, mod_path: Seq<Seq<char>> },
}

impl View for Found {
    type V = FoundView;

    open spec fn view(&self) -> FoundView {
        match self {
            Found::Block(b) => FoundView::Block {
                mod_path: views(b.mod_path@),
                is_unsafe: b.is_unsafe,
                abi: b.abi@,
                functions: b.functions@,
            },
            Found::File { dir, name, mod_path } => FoundView::File {
                dir: dir@,
                name: name@,
                mod_path: views(mod_path@),
            },
        }
    }
}

pub open spec fn found_views(fs: Seq<Found>) -> Seq<FoundView> {
    fs.map_values(|f: Found| f@)
}

/// What `items` yield, in order, in directory `dir` and module `path`; an
/// inline module's items are read in its own directory and path, where only
/// modules and type aliases may stand. Any other item there, and any
/// unexpected item anywhere, stops the walk with its text.
pub open spec fn scan_spec(
    items: Seq<Item>,
    nested: bool,
    dir: Seq<char>,
    path: Seq<Seq<char>>,
    sep: char,
) -> Result<Seq<FoundView>, Seq<char>>
    decreases items,
{
    if items.len() == 0 {
        Ok(Seq::empty())
    } else {
        proof {
            assert(decreases_to!(items => items.subrange(0, items.len() - 1)));
        }
        match scan_spec(items.subrange(0, items.len() - 1), nested, dir, path, sep) {
            Err(e) => Err(e),
            Ok(prev) => {
                let item = items[items.len() - 1];
                match item {
                    Item::Module { name, body } => match body {
                        None => Ok(prev.push(FoundView::File { dir, name: name@, mod_path: path.push(name@) })),
                        Some(v) => {
                            proof {
                                assert(decreases_to!(items => items[items.len() - 1]));
                                assert(decreases_to!(v => v@));
                            }
                            match scan_spec(v@, true, join_spec(dir, name@, sep), path.push(name@), sep) {
                                Err(e) => Err(e),
                                Ok(inner) => Ok(prev + inner),
                            }
                        },
                    },
                    Item::Foreign { is_unsafe, abi, functions } => if nested {
                        Err("unexpected foreign block in an inline module"@)
                    } else {
                        Ok(prev.push(FoundView::Block { mod_path: path, is_unsafe, abi: abi@, functions: functions@ }))
                    },
                    Item::TypeAlias => Ok(prev),
                    Item::Ignored => if nested {
                        Err("unexpected item in an inline module"@)
                    } else {
                        Ok(prev)
                    },
                    Item::Unexpected { text } => Err("unexpected item "@ + text@),
                }
            },
        }
    }
}

/// Appends to `out` what `items` yield; see `scan_spec`.
fn scan_into(
    items: Vec<Item>,
    nested: bool,
    dir: &str,
    path: &Vec<String>,
    platform: Platform,
    out: &mut Vec<Found>,
) -> (r: Result<(), String>)
    ensures
        match scan_spec(items@, nested, dir@, views(path@), platform.dir_separator_spec()) {
            Ok(fs) => r is Ok && found_views(final(out)@) == found_views(old(out)@) + fs,
            Err(e) => r matches Err(x) && x@ == e,
        },
    decreases items,
{
    let ghost all = items@;
    let ghost orig = items;
    let ghost start = found_views(out@);
    let ghost sep = platform.dir_separator_spec();
    let n = items.len();
    let mut rest = items;
    let mut i: usize = 0;
    assert(all.subrange(0, 0) =~= Seq::<Item>::empty());
    assert(start =~= start + Seq::<FoundView>::empty());
    while i < n
        invariant
            n == all.len(),
            i <= n,
            all == orig@,
            orig == items,
            sep == platform.dir_separator_spec(),
            rest@ == all.subrange(i as int, n as int),
            scan_spec(all.subrange(0, i as int), nested, dir@, views(path@), sep) matches Ok(fs)
                && found_views(out@) == start + fs,
        decreases n - i,
    {
        let ghost pre = all.subrange(0, i + 1);
        let ghost fs = scan_spec(all.subrange(0, i as int), nested, dir@, views(path@), sep)->Ok_0;
        assert(pre.subrange(0, pre.len() - 1) =~= all.subrange(0, i as int));
        assert(rest@[0] == all[i as int]);
        let item = rest.remove(0);
        assert(rest@ =~= all.subrange(i + 1, n as int));
        assert(pre[pre.len() - 1] == item);
        let ghost before = out@;
        let ghost item_g = item;
        match item {
            Item::Module { name, body } => match body {
                None => {
                    let mut mod_path = path.clone();
                    mod_path.push(name.clone());
                    assert(views(mod_path@) =~= views(path@).push(name@));
                    out.push(Found::File { dir: String::from_str(dir), name, mod_path });
                    assert(found_views(out@) =~= found_views(before).push(out@.last()@));
                },
                Some(v) => {
                    let mut mod_path = path.clone();
                    mod_path.push(name.clone());
                    assert(views(mod_path@) =~= views(path@).push(name@));
                    let sub = join_dir(dir, name.as_str(), platform);
                    proof {
                        assert(decreases_to!(orig => orig@));
                        assert(decreases_to!(orig@ => orig@[i as int]));
                        assert(orig@[i as int] == item_g);
                        assert(decreases_to!(item_g => v));
                        assert(decreases_to!(orig => v));
                    }
                    let ghost v_g = v;
                    assert(item_g == Item::Module { name, body: Some(v_g) });
                    assert(sub@ == join_spec(dir@, name@, sep));
                    match scan_into(v, true, sub.as_str(), &mod_path, platform, out) {
                        Err(e) => {
                            proof {
                                assert(scan_spec(v_g@, true, sub@, views(mod_path@), sep) is Err);
                                assert(scan_spec(pre, nested, dir@, views(path@), sep) is Err);
                                lemma_scan_error_stays(all, i + 1, nested, dir@, views(path@), sep);
                            }
                            return Err(e);
                        },
                        Ok(()) => {
                            assert(found_views(out@) =~= start + (fs + scan_spec(
                                v@,
                                true,
                                sub@,
                                views(mod_path@),
                                sep,
                            )->Ok_0));
                        },
                    }
                },
            },
            Item::Foreign { is_unsafe, abi, functions } => {
                if nested {
                    proof {
                        lemma_scan_error_stays(all, i + 1, nested, dir@, views(path@), sep);
                    }
                    return Err(String::from_str("unexpected foreign block in an inline module"));
                }
                let block = ForeignBlock { mod_path: path.clone(), is_unsafe, abi, functions };
                out.push(Found::Block(block));
                assert(found_views(out@) =~= found_views(before).push(out@.last()@));
            },
            Item::TypeAlias => {},
            Item::Ignored => {
                if nested {
                    proof {
                        lemma_scan_error_stays(all, i + 1, nested, dir@, views(path@), sep);
                    }
                    return Err(String::from_str("unexpected item in an inline module"));
                }
            },
            Item::Unexpected { text } => {
                proof {
                    lemma_scan_error_stays(all, i + 1, nested, dir@, views(path@), sep);
                }
                return Err(String::from_str("unexpected item ").concat(text.as_str()));
            },
        }
        i = i + 1;
    }
    assert(all.subrange(0, n as int) =~= all);
    Ok(())
}

/// Once the walk of a prefix of `items` has failed, the rest does not
/// change the error.
pub proof fn lemma_scan_error_stays(
    items: Seq<Item>,
    k: int,
    nested: bool,
    dir: Seq<char>,
    path: Seq<Seq<char>>,
    sep: char,
)
    requires
        0 <= k <= items.len(),
        scan_spec(items.subrange(0, k), nested, dir, path, sep) is Err,
    ensures
        scan_spec(items, nested, dir, path, sep) == scan_spec(items.subrange(0, k), nested, dir, path, sep),
    decreases items.len() - k,
{
    if k < items.len() {
        let s = items.subrange(0, k + 1);
        assert(s.subrange(0, s.len() - 1) =~= items.subrange(0, k));
        lemma_scan_error_stays(items, k + 1, nested, dir, path, sep);
    } else {
        assert(items.subrange(0, k) =~= items);
    }
}

/// What the items of one source file yield, in order; the file lies in
/// directory `dir` and holds module `mod_path`.
pub fn scan_file(items: Vec<Item>, dir: &str, mod_path: &Vec<String>, platform: Platform) -> (r: Result<
    Vec<Found>,
    String,
>)
    ensures
        match scan_spec(items@, false, dir@, views(mod_path@), platform.dir_separator_spec()) {
            Ok(fs) => r matches Ok(x) && found_views(x@) == fs,
            Err(e) => r matches Err(x) && x@ == e,
        },
{
    let mut out: Vec<Found> = Vec::new();
    assert(found_views(out@) =~= Seq::<FoundView>::empty());
    match scan_into(items, false, dir, mod_path, platform, &mut out) {
        Ok(()) => {
            assert(found_views(out@) =~= Seq::<FoundView>::empty() + scan_spec(
                items@,
                false,
                dir@,
                views(mod_path@),
                platform.dir_separator_spec(),
            )->Ok_0);
            Ok(out)
        },
        Err(e) => Err(e),
    }
}

/// Where module `name`, declared by a file in directory `dir`, is written:
/// `dir/name/mod.rs` when directory `dir/name` exists, else `dir/name.rs`.
/// The second result is the directory in which that file's own modules are
/// looked up: the one that holds it.
pub fn module_file(dir: &str, name: &str, dir_exists: bool, platform: Platform) -> (r: (
    String,
    String,
))
    ensures
        dir_exists ==> r.0@ == join_spec(
            join_spec(dir@, name@, platform.dir_separator_spec()),
            "mod.rs"@,
            platform.dir_separator_spec(),
        ) && r.1@ == join_spec(dir@, name@, platform.dir_separator_spec()),
        !dir_exists ==> r.0@ == join_spec(dir@, name@ + ".rs"@, platform.dir_separator_spec())
            && r.1@ == dir@,
{
    if dir_exists {
        let sub = join_dir(dir, name, platform);
        (join_dir(sub.as_str(), "mod.rs", platform), sub)
    } else {
        let file_name = String::from_str(name).concat(".rs");
        (join_dir(dir, file_name.as_str(), platform), String::from_str(dir))
    }
}

} // verus!
