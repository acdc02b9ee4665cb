//! Finding LLVM's shared library among the directories that the process
//! environment points at.
use vstd::prelude::*;
use crate::text::{ends_with, has_prefix, has_suffix, split_list, split_spec, starts_with, views};

verus! {

/// The operating-system family whose path conventions apply.
#[derive(Clone, Copy, Debug, PartialEq, Eq)]
pub enum Platform {
    Linux,
    MacOs,
    Windows,
}

impl Platform {
    /// Separator between entries of a path-list variable.
    pub open spec fn list_separator_spec(self) -> char {
        match self {
            Platform::Windows => ';',
            _ => ':',
        }
    }

    /// Separator between the segments of one path.
    pub open spec fn dir_separator_spec(self) -> char {
        match self {
            Platform::Windows => '\\',
            _ => '/',
        }
    }

    /// File extension of a dynamic library.
    pub open spec fn library_extension_spec(self) -> Seq<char> {
        match self {
            Platform::Linux => seq!['s', 'o'],
            Platform::MacOs => seq!['d', 'y', 'l', 'i', 'b'],
            Platform::Windows => seq!['d', 'l', 'l'],
        }
    }

    pub fn list_separator(&self) -> (r: char)
        ensures
            r == self.list_separator_spec(),
    {
        match self {
            Platform::Windows => ';',
            _ => ':',
        }
    }

    pub fn dir_separator_char(&self) -> (r: char)
        ensures
            r == self.dir_separator_spec(),
    {
        match self {
            Platform::Windows => '\\',
            _ => '/',
        }
    }

    /// The segment separator as a one-character string.
    pub fn dir_separator(&self) -> (r: &'static str)
        ensures
            r@ == seq![self.dir_separator_spec()],
    {
        match self {
            Platform::Windows => {
                let s = "\\";
                proof {
                    reveal_strlit("\\");
                }
                assert(s@ =~= seq!['\\']);
                s
            },
            _ => {
                let s = "/";
                proof {
                    reveal_strlit("/");
                }
                assert(s@ =~= seq!['/']);
                s
            },
        }
    }

    pub fn library_extension(&self) -> (r: &'static str)
        ensures
            r@ == self.library_extension_spec(),
    {
        match self {
            Platform::Linux => {
                let s = "so";
                proof {
                    reveal_strlit("so");
                }
                assert(s@ =~= seq!['s', 'o']);
                s
            },
            Platform::MacOs => {
                let s = "dylib";
                proof {
                    reveal_strlit("dylib");
                }
                assert(s@ =~= seq!['d', 'y', 'l', 'i', 'b']);
                s
            },
            Platform::Windows => {
                let s = "dll";
                proof {
                    reveal_strlit("dll");
                }
                assert(s@ =~= seq!['d', 'l', 'l']);
                s
            },
        }
    }
}

/// What the locator reads from the environment: each variable's value, if set.
pub struct LocatorEnv {
    /// Legacy build prefix; each of its entries gets a `lib` segment appended.
    pub build_prefix: Option<String>,
    /// The platform's dynamic-library search path.
    pub library_path: Option<String>,
    /// The fallback dynamic-library search path.
    pub fallback_library_path: Option<String>,
    /// The executable search path; each entry's last segment becomes `lib`.
    pub search_path: Option<String>,
}

/// Start of the file name of every LLVM shared library.
pub open spec fn library_prefix() -> Seq<char> {
    seq!['l', 'i', 'b', 'L', 'L', 'V', 'M']
}

/// The library directory segment.
pub open spec fn lib_segment() -> Seq<char> {
    seq!['l', 'i', 'b']
}

/// A file name whose stem begins with `libLLVM` and whose extension is the
/// platform's dynamic-library extension. As the prefix holds no dot, this is
/// the name starting with the prefix and ending with a dot and the extension.
pub open spec fn is_library_name(name: Seq<char>, platform: Platform) -> bool {
    starts_with(name, library_prefix()) && ends_with(
        name,
        seq!['.'] + platform.library_extension_spec(),
    )
}

/// `name` placed inside directory `dir`.
pub open spec fn join_spec(dir: Seq<char>, name: Seq<char>, sep: char) -> Seq<char> {
    if dir.len() == 0 {
        name
    } else if dir.last() == sep {
        dir + name
    } else {
        dir.push(sep) + name
    }
}

/// `s` without its trailing `c`s.
pub open spec fn trim_end_spec(s: Seq<char>, c: char) -> Seq<char>
    decreases s.len(),
{
    if s.len() > 0 && s.last() == c {
        trim_end_spec(s.drop_last(), c)
    } else {
        s
    }
}

/// Index of the last `c` in `s`, or -1.
pub open spec fn last_index_spec(s: Seq<char>, c: char) -> int
    decreases s.len(),
{
    if s.len() == 0 {
        -1
    } else if s.last() == c {
        s.len() - 1
    } else {
        last_index_spec(s.drop_last(), c)
    }
}

/// `dir` with its final segment replaced by `seg`; a path with no final
/// segment (empty, or separators only) gets `seg` appended.
pub open spec fn sibling_spec(dir: Seq<char>, seg: Seq<char>, sep: char) -> Seq<char> {
    let t = trim_end_spec(dir, sep);
    if t.len() == 0 {
        dir + seg
    } else {
        t.subrange(0, last_index_spec(t, sep) + 1) + seg
    }
}

/// How the entries of one variable are turned into directories.
#[derive(Clone, Copy)]
pub enum EntryRule {
    AsIs,
    AppendLib,
    SiblingLib,
}

pub open spec fn apply_rule(rule: EntryRule, e: Seq<char>, platform: Platform) -> Seq<char> {
    match rule {
        EntryRule::AsIs => e,
        EntryRule::AppendLib => join_spec(e, lib_segment(), platform.dir_separator_spec()),
        EntryRule::SiblingLib => sibling_spec(e, lib_segment(), platform.dir_separator_spec()),
    }
}

/// The directories that one variable contributes.
pub open spec fn entries_of(value: Option<String>, rule: EntryRule, platform: Platform) -> Seq<
    Seq<char>,
> {
    match value {
        Some(v) => split_spec(v@, platform.list_separator_spec()).map_values(
            |e: Seq<char>| apply_rule(rule, e, platform),
        ),
        None => Seq::empty(),
    }
}

/// The candidate directories, in priority order.
pub open spec fn candidate_directories(env: LocatorEnv, platform: Platform) -> Seq<Seq<char>> {
    entries_of(env.build_prefix, EntryRule::AppendLib, platform) + entries_of(
        env.library_path,
        EntryRule::AsIs,
        platform,
    ) + entries_of(env.fallback_library_path, EntryRule::AsIs, platform) + entries_of(
        env.search_path,
        EntryRule::SiblingLib,
        platform,
    )
}

/// The first library file among `entries`, placed in `dir`.
pub open spec fn library_in_directory(dir: Seq<char>, entries: Seq<Seq<char>>, platform: Platform) -> Option<
    Seq<char>,
>
    decreases entries.len(),
{
    if entries.len() == 0 {
        None
    } else if is_library_name(entries[0], platform) {
        Some(join_spec(dir, entries[0], platform.dir_separator_spec()))
    } else {
        library_in_directory(dir, entries.drop_first(), platform)
    }
}

pub open spec fn listing_views(ls: Seq<Option<Vec<String>>>) -> Seq<Option<Seq<Seq<char>>>> {
    ls.map_values(
        |l: Option<Vec<String>>|
            match l {
                Some(v) => Some(views(v@)),
                None => None,
            },
    )
}

/// The library found in the first directory, in order, whose listing holds
/// one; an unreadable directory (no listing) holds none.
pub open spec fn locate_spec(
    dirs: Seq<Seq<char>>,
    listings: Seq<Option<Seq<Seq<char>>>>,
    platform: Platform,
) -> Option<Seq<char>>
    decreases dirs.len(),
{
    if dirs.len() == 0 || listings.len() == 0 {
        None
    } else {
        let here = match listings[0] {
            Some(es) => library_in_directory(dirs[0], es, platform),
            None => None,
        };
        if here is Some {
            here
        } else {
            locate_spec(dirs.drop_first(), listings.drop_first(), platform)
        }
    }
}

/// Why no library was found.
pub enum LocateError {
    /// The environment named no directory at all.
    NoCandidates,
    /// No directory held a library; every directory searched, in order.
    NotFound { searched: Vec<String> },
}

pub open spec fn bullets_spec(items: Seq<Seq<char>>) -> Seq<char>
    decreases items.len(),
{
    if items.len() == 0 {
        Seq::empty()
    } else {
        bullets_spec(items.drop_last()) + "\n- "@ + items.last()
    }
}

impl LocateError {
    pub open spec fn message_spec(&self) -> Seq<char> {
        match self {
            LocateError::NoCandidates => "Unable to find possible LLVM shared lib locations."@,
            LocateError::NotFound { searched } => "Unable to find LLVM shared lib in possible locations:"@
                + bullets_spec(views(searched@)),
        }
    }

    /// A diagnostic naming every directory searched.
    pub fn message(&self) -> (r: String)
        ensures
            r@ == self.message_spec(),
    {
        match self {
            LocateError::NoCandidates => String::from_str(
                "Unable to find possible LLVM shared lib locations.",
            ),
            LocateError::NotFound { searched } => {
                let mut r = String::from_str(
                    "Unable to find LLVM shared lib in possible locations:",
                );
                let mut i: usize = 0;
                while i < searched.len()
                    invariant
                        i <= searched@.len(),
                        r@ == "Unable to find LLVM shared lib in possible locations:"@
                            + bullets_spec(views(searched@.subrange(0, i as int))),
                    decreases searched@.len() - i,
                {
                    proof {
                        let s = views(searched@.subrange(0, i + 1));
                        assert(s.drop_last() =~= views(searched@.subrange(0, i as int)));
                    }
                    r.append("\n- ");
                    r.append(searched[i].as_str());
                    proof {
                        let s = views(searched@.subrange(0, i + 1));
                        assert(s.last() == searched@[i as int]@);
                        assert(r@ =~= "Unable to find LLVM shared lib in possible locations:"@
                            + bullets_spec(s));
                    }
                    i = i + 1;
                }
                assert(searched@.subrange(0, i as int) =~= searched@);
                r
            },
        }
    }
}

/// Whether `name` is the file name of an LLVM shared library.
pub fn is_library_file_name(name: &str, platform: Platform) -> (r: bool)
    ensures
        r == is_library_name(name@, platform),
{
    let prefix = "libLLVM";
    proof {
        reveal_strlit("libLLVM");
        assert(prefix@ =~= library_prefix());
    }
    let dot = ".";
    proof {
        reveal_strlit(".");
    }
    let suffix = String::from_str(dot).concat(platform.library_extension());
    assert(suffix@ =~= seq!['.'] + platform.library_extension_spec());
    has_prefix(name, prefix) && has_suffix(name, suffix.as_str())
}

/// `name` placed inside directory `dir`.
pub fn join_dir(dir: &str, name: &str, platform: Platform) -> (r: String)
    ensures
        r@ == join_spec(dir@, name@, platform.dir_separator_spec()),
{
    let n = dir.unicode_len();
    if n == 0 {
        String::from_str(name)
    } else if dir.get_char(n - 1) == platform.dir_separator_char() {
        String::from_str(dir).concat(name)
    } else {
        String::from_str(dir).concat(platform.dir_separator()).concat(name)
    }
}


/// `dir` with its final segment replaced by `seg`.
pub fn sibling_dir(dir: &str, seg: &str, platform: Platform) -> (r: String)
    ensures
        r@ == sibling_spec(dir@, seg@, platform.dir_separator_spec()),
{
    let sep = platform.dir_separator_char();
    let n = dir.unicode_len();
    let mut e: usize = n;
    assert(dir@.subrange(0, n as int) =~= dir@);
    while e > 0 && dir.get_char(e - 1) == sep
        invariant
            e <= n == dir@.len(),
            trim_end_spec(dir@.subrange(0, e as int), sep) == trim_end_spec(dir@, sep),
        decreases e,
    {
        assert(dir@.subrange(0, e as int).drop_last() =~= dir@.subrange(0, e - 1));
        e = e - 1;
    }
    let ghost t = dir@.subrange(0, e as int);
    assert(trim_end_spec(t, sep) == t);
    if e == 0 {
        return String::from_str(dir).concat(seg);
    }
    let mut k: usize = e;
    assert(dir@.subrange(0, k as int) =~= t);
    while k > 0 && dir.get_char(k - 1) != sep
        invariant
            k <= e <= n == dir@.len(),
            t == dir@.subrange(0, e as int),
            last_index_spec(dir@.subrange(0, k as int), sep) == last_index_spec(t, sep),
        decreases k,
    {
        assert(dir@.subrange(0, k as int).drop_last() =~= dir@.subrange(0, k - 1));
        k = k - 1;
    }
    assert(t.subrange(0, k as int) =~= dir@.subrange(0, k as int));
    String::from_str(dir.substring_char(0, k)).concat(seg)
}

/// Appends to `out` the directories that one variable contributes.
fn push_entries(out: &mut Vec<String>, value: &Option<String>, rule: EntryRule, platform: Platform)
    ensures
        views(final(out)@) == views(old(out)@) + entries_of(*value, rule, platform),
{
    let ghost start = views(out@);
    match value {
        None => {
            assert(views(out@) =~= start + entries_of(*value, rule, platform));
        },
        Some(v) => {
            let pieces = split_list(v.as_str(), platform.list_separator());
            let ghost all = entries_of(*value, rule, platform);
            let lib = "lib";
            proof {
                reveal_strlit("lib");
                assert(lib@ =~= lib_segment());
            }
            let mut i: usize = 0;
            while i < pieces.len()
                invariant
                    i <= pieces@.len(),
                    views(pieces@) == split_spec(v@, platform.list_separator_spec()),
                    all == views(pieces@).map_values(|e: Seq<char>| apply_rule(rule, e, platform)),
                    lib@ == lib_segment(),
                    views(out@) == start + all.subrange(0, i as int),
                decreases pieces@.len() - i,
            {
                let p = pieces[i].as_str();
                let d = match rule {
                    EntryRule::AsIs => String::from_str(p),
                    EntryRule::AppendLib => join_dir(p, lib, platform),
                    EntryRule::SiblingLib => sibling_dir(p, lib, platform),
                };
                assert(views(pieces@)[i as int] == pieces@[i as int]@);
                let ghost before = out@;
                out.push(d);
                assert(views(out@) =~= views(before).push(d@));
                assert(all.subrange(0, i + 1) =~= all.subrange(0, i as int).push(all[i as int]));
                i = i + 1;
            }
            assert(all.subrange(0, i as int) =~= all);
        },
    }
}

/// The candidate directories, in priority order; duplicates are kept.
pub fn collect_possible_directories(env: &LocatorEnv, platform: Platform) -> (r: Vec<String>)
    ensures
        views(r@) == candidate_directories(*env, platform),
{
    let mut paths: Vec<String> = Vec::new();
    assert(views(paths@) =~= Seq::<Seq<char>>::empty());
    push_entries(&mut paths, &env.build_prefix, EntryRule::AppendLib, platform);
    push_entries(&mut paths, &env.library_path, EntryRule::AsIs, platform);
    push_entries(&mut paths, &env.fallback_library_path, EntryRule::AsIs, platform);
    push_entries(&mut paths, &env.search_path, EntryRule::SiblingLib, platform);
    assert(views(paths@) =~= candidate_directories(*env, platform));
    paths
}


/// The first entry of `entries` that names an LLVM shared library, placed in
/// `directory`.
pub fn find_library_in_directory(directory: &str, entries: &Vec<String>, platform: Platform) -> (r:
    Option<String>)
    ensures
        r matches Some(p) ==> library_in_directory(directory@, views(entries@), platform) == Some(p@),
        r is None ==> library_in_directory(directory@, views(entries@), platform) is None,
{
    let ghost es = views(entries@);
    let mut i: usize = 0;
    assert(es.subrange(0, es.len() as int) =~= es);
    while i < entries.len()
        invariant
            i <= entries@.len() == es.len(),
            es == views(entries@),
            library_in_directory(directory@, es.subrange(i as int, es.len() as int), platform)
                == library_in_directory(directory@, es, platform),
        decreases entries@.len() - i,
    {
        let name = entries[i].as_str();
        let ghost rest = es.subrange(i as int, es.len() as int);
        assert(rest[0] == name@);
        if is_library_file_name(name, platform) {
            return Some(join_dir(directory, name, platform));
        }
        assert(rest.drop_first() =~= es.subrange(i + 1, es.len() as int));
        i = i + 1;
    }
    None
}

/// The first LLVM shared library found in `directories`, searched in order;
/// `listings[i]` holds the file names in `directories[i]`, or nothing where
/// that directory could not be read.
pub fn find_lib_path(
    directories: &Vec<String>,
    listings: &Vec<Option<Vec<String>>>,
    platform: Platform,
) -> (r: Result<String, LocateError>)
    requires
        directories@.len() == listings@.len(),
    ensures
        directories@.len() == 0 ==> r matches Err(LocateError::NoCandidates),
        directories@.len() > 0 ==> match locate_spec(
            views(directories@),
            listing_views(listings@),
            platform,
        ) {
            Some(p) => r matches Ok(q) && q@ == p,
            None => r matches Err(LocateError::NotFound { searched }) && views(searched@) == views(
                directories@,
            ),
        },
{
    if directories.len() == 0 {
        return Err(LocateError::NoCandidates);
    }
    let ghost ds = views(directories@);
    let ghost ls = listing_views(listings@);
    let mut i: usize = 0;
    assert(ds.subrange(0, ds.len() as int) =~= ds);
    assert(ls.subrange(0, ls.len() as int) =~= ls);
    while i < directories.len()
        invariant
            i <= directories@.len() == listings@.len() == ds.len() == ls.len(),
            ds == views(directories@),
            ls == listing_views(listings@),
            locate_spec(
                ds.subrange(i as int, ds.len() as int),
                ls.subrange(i as int, ls.len() as int),
                platform,
            ) == locate_spec(ds, ls, platform),
        decreases directories@.len() - i,
    {
        let ghost drest = ds.subrange(i as int, ds.len() as int);
        let ghost lrest = ls.subrange(i as int, ls.len() as int);
        assert(drest[0] == directories@[i as int]@);
        assert(drest.drop_first() =~= ds.subrange(i + 1, ds.len() as int));
        assert(lrest.drop_first() =~= ls.subrange(i + 1, ls.len() as int));
        match &listings[i] {
            Some(entries) => {
                assert(lrest[0] == Some(views(entries@)));
                if let Some(found) = find_library_in_directory(directories[i].as_str(), entries, platform) {
                    return Ok(found);
                }
            },
            None => {
                assert(lrest[0] is None);
            },
        }
        i = i + 1;
    }
    Err(LocateError::NotFound { searched: directories.clone() })
}

} // verus!
