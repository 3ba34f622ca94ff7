//! Picking the compiled macro library and the macro in it.

use vstd::prelude::*;

use crate::text::{ends_with, starts_with};

verus! {

/// The operating systems that name dynamic libraries differently.
#[derive(Clone, Copy, Debug, PartialEq, Eq, Structural)]
pub enum Platform {
    Windows,
    MacOs,
    Other,
}

/// A file in a build directory.
#[derive(Debug, PartialEq, Eq)]
pub struct Artifact {
    pub name: String,
    /// When the file was last written, in nanoseconds from the Unix epoch, if
    /// that can be told.
    pub modified: Option<i128>,
}

/// What a macro of a macro library is used as.
#[derive(Clone, Copy, Debug, PartialEq, Eq, Structural)]
pub enum ProcMacroKind {
    CustomDerive,
    Bang,
    Attr,
}

impl Platform {
    /// What the name of a dynamic library ends with.
    pub open spec fn extension(self) -> Seq<char> {
        match self {
            Platform::Windows => "dll"@,
            Platform::MacOs => "dylib"@,
            Platform::Other => "so"@,
        }
    }

    /// What the name of the macro library begins with.
    pub open spec fn prefix(self) -> Seq<char> {
        match self {
            Platform::Windows => "slint_macros"@,
            _ => "libslint_macros"@,
        }
    }

    /// Whether a file of that name is a build of the macro library.
    fn names_dylib(self, name: &str) -> (yes: bool)
        ensures
            yes == (self.prefix().is_prefix_of(name@) && self.extension().is_suffix_of(name@)),
    {
        let ext = match self {
            Platform::Windows => "dll",
            Platform::MacOs => "dylib",
            Platform::Other => "so",
        };
        let prefix = match self {
            Platform::Windows => "slint_macros",
            _ => "libslint_macros",
        };
        starts_with(name, prefix) && ends_with(name, ext)
    }
}

impl Artifact {
    /// The file is a build of the macro library, and it is known when it was
    /// built.
    pub open spec fn is_candidate(self, platform: Platform) -> bool {
        &&& platform.prefix().is_prefix_of(self.name@)
        &&& platform.extension().is_suffix_of(self.name@)
        &&& self.modified is Some
    }
}

/// The build profiles whose directories are searched, in that order.
pub fn build_profiles() -> (profiles: Vec<&'static str>)
    ensures
        profiles@ == seq!["debug", "release"],
{
    vec!["debug", "release"]
}

/// The place of the newest build of the macro library, and of builds that are
/// equally new that of the last one.
pub open spec fn newest(artifacts: Seq<Artifact>, platform: Platform) -> Option<int>
    decreases artifacts.len(),
{
    if artifacts.len() == 0 {
        None
    } else {
        let before = newest(artifacts.drop_last(), platform);
        let last = artifacts.last();
        if !last.is_candidate(platform) {
            before
        } else if before is Some && artifacts[before->0].modified->0 > last.modified->0 {
            before
        } else {
            Some(artifacts.len() - 1)
        }
    }
}

/// The newest build of the macro library among the files of the build
/// directories. Of builds that are equally new it is the last one.
pub fn find_slint_dylib(artifacts: &Vec<Artifact>, platform: Platform) -> (place: Option<usize>)
    ensures
        match place {
            Some(k) => newest(artifacts@, platform) == Some(k as int),
            None => newest(artifacts@, platform) is None,
        },
        match place {
            Some(k) => {
                &&& k < artifacts@.len()
                &&& artifacts@[k as int].is_candidate(platform)
                &&& forall|i: int|
                    #![trigger artifacts@[i]]
                    0 <= i < artifacts@.len() && artifacts@[i].is_candidate(platform) ==> {
                        &&& artifacts@[i].modified->0 <= artifacts@[k as int].modified->0
                        &&& i > k ==> artifacts@[i].modified->0
                            < artifacts@[k as int].modified->0
                    }
            },
            None => forall|i: int|
                0 <= i < artifacts@.len() ==> !(#[trigger] artifacts@[i]).is_candidate(platform),
        },
{
    let mut newest: Option<(usize, i128)> = None;
    let mut i: usize = 0;
    while i < artifacts.len()
        invariant
            i <= artifacts@.len(),
            match newest {
                Some((k, _)) => self::newest(artifacts@.take(i as int), platform) == Some(k as int),
                None => self::newest(artifacts@.take(i as int), platform) is None,
            },
            match newest {
                Some((k, time)) => {
                    &&& k < i
                    &&& artifacts@[k as int].is_candidate(platform)
                    &&& artifacts@[k as int].modified == Some(time)
                    &&& forall|j: int|
                        #![trigger artifacts@[j]]
                        0 <= j < i && artifacts@[j].is_candidate(platform) ==> {
                            &&& artifacts@[j].modified->0 <= time
                            &&& j > k ==> artifacts@[j].modified->0 < time
                        }
                },
                None => forall|j: int|
                    0 <= j < i ==> !(#[trigger] artifacts@[j]).is_candidate(platform),
            },
        decreases artifacts@.len() - i,
    {
        proof {
            assert(artifacts@.take(i + 1).drop_last() == artifacts@.take(i as int));
            assert(artifacts@.take(i + 1).last() == artifacts@[i as int]);
        }
        if platform.names_dylib(artifacts[i].name.as_str()) {
            if let Some(time) = artifacts[i].modified {
                newest = match newest {
                    Some((k, best)) => {
                        if best <= time {
                            Some((i, time))
                        } else {
                            Some((k, best))
                        }
                    },
                    None => Some((i, time)),
                };
            }
        }
        i += 1;
    }
    assert(artifacts@.take(i as int) == artifacts@);
    match newest {
        Some((k, _)) => Some(k),
        None => None,
    }
}

/// Wherever a file has the name of a macro library and a known time of any
/// value, a library is found, and it is no older than that file. A file behind
/// the one that is found is older.
pub proof fn law_every_build_is_seen(artifacts: Seq<Artifact>, platform: Platform, i: int)
    requires
        0 <= i < artifacts.len(),
        artifacts[i].modified is Some,
        match platform {
            Platform::Windows => "slint_macros"@.is_prefix_of(artifacts[i].name@)
                && "dll"@.is_suffix_of(artifacts[i].name@),
            Platform::MacOs => "libslint_macros"@.is_prefix_of(artifacts[i].name@)
                && "dylib"@.is_suffix_of(artifacts[i].name@),
            Platform::Other => "libslint_macros"@.is_prefix_of(artifacts[i].name@)
                && "so"@.is_suffix_of(artifacts[i].name@),
        },
    ensures
        newest(artifacts, platform) matches Some(k) && 0 <= k < artifacts.len()
            && artifacts[k].modified is Some && artifacts[i].modified->0
            <= artifacts[k].modified->0 && (i > k ==> artifacts[i].modified->0
            < artifacts[k].modified->0),
    decreases artifacts.len(),
{
    let before = artifacts.drop_last();
    law_only_builds_are_found(before, platform);
    if i < before.len() {
        assert(before[i] == artifacts[i]);
        law_every_build_is_seen(before, platform, i);
    }
}

/// What is found is a file with the name of a macro library and a known time.
pub proof fn law_only_builds_are_found(artifacts: Seq<Artifact>, platform: Platform)
    ensures
        newest(artifacts, platform) matches Some(k) ==> {
            &&& 0 <= k < artifacts.len()
            &&& artifacts[k].modified is Some
            &&& match platform {
                Platform::Windows => "slint_macros"@.is_prefix_of(artifacts[k].name@)
                    && "dll"@.is_suffix_of(artifacts[k].name@),
                Platform::MacOs => "libslint_macros"@.is_prefix_of(artifacts[k].name@)
                    && "dylib"@.is_suffix_of(artifacts[k].name@),
                Platform::Other => "libslint_macros"@.is_prefix_of(artifacts[k].name@)
                    && "so"@.is_suffix_of(artifacts[k].name@),
            }
        },
    decreases artifacts.len(),
{
    if artifacts.len() > 0 {
        law_only_builds_are_found(artifacts.drop_last(), platform);
    }
}

/// The entry is a function-like macro.
pub open spec fn is_bang(entry: (String, ProcMacroKind)) -> bool {
    entry.1 is Bang
}

/// The entry is the function-like macro `slint`.
pub open spec fn is_slint(entry: (String, ProcMacroKind)) -> bool {
    is_bang(entry) && entry.0@ == "slint"@
}

/// Entry `k` is the function-like macro to expand: the first one named
/// `slint`, or, where none is, the first one of any name.
pub open spec fn to_expand(macros: Seq<(String, ProcMacroKind)>, k: int) -> bool {
    &&& 0 <= k < macros.len()
    &&& is_bang(macros[k])
    &&& if exists|i: int| 0 <= i < macros.len() && is_slint(#[trigger] macros[i]) {
        &&& is_slint(macros[k])
        &&& forall|i: int| 0 <= i < k ==> !is_slint(#[trigger] macros[i])
    } else {
        forall|i: int| 0 <= i < k ==> !is_bang(#[trigger] macros[i])
    }
}

/// The place of the function-like macro that is to be expanded, if there is
/// any.
fn find_to_expand(macros: &Vec<(String, ProcMacroKind)>) -> (place: Option<usize>)
    ensures
        match place {
            Some(k) => to_expand(macros@, k as int),
            None => forall|i: int| 0 <= i < macros@.len() ==> !is_bang(#[trigger] macros@[i]),
        },
{
    let mut first_bang: Option<usize> = None;
    let mut i: usize = 0;
    let name = "slint".to_owned();
    while i < macros.len()
        invariant
            i <= macros@.len(),
            name@ == "slint"@,
            forall|j: int| 0 <= j < i ==> !is_slint(#[trigger] macros@[j]),
            match first_bang {
                Some(k) => {
                    &&& k < i
                    &&& is_bang(macros@[k as int])
                    &&& forall|j: int| 0 <= j < k ==> !is_bang(#[trigger] macros@[j])
                },
                None => forall|j: int| 0 <= j < i ==> !is_bang(#[trigger] macros@[j]),
            },
        decreases macros@.len() - i,
    {
        if let ProcMacroKind::Bang = macros[i].1 {
            if macros[i].0 == name {
                assert(is_slint(macros@[i as int]));
                return Some(i);
            }
            if first_bang.is_none() {
                first_bang = Some(i);
            }
        }
        i += 1;
    }
    first_bang
}

/// The name of the function-like macro that is to be expanded, if the library
/// has any.
pub fn bang_macro_name(macros: &Vec<(String, ProcMacroKind)>) -> (name: Option<String>)
    ensures
        match name {
            Some(n) => exists|k: int| #[trigger]
                to_expand(macros@, k) && n@ == macros@[k].0@,
            None => forall|i: int|
                0 <= i < macros@.len() ==> !is_bang(#[trigger] macros@[i]) && !(
                macros@[i].1 is Bang),
        },
{
    match find_to_expand(macros) {
        Some(k) => {
            assert(to_expand(macros@, k as int));
            Some(macros[k].0.clone())
        },
        None => None,
    }
}

/// A library with a function-like macro of any name has one to expand.
pub proof fn law_a_function_like_macro_is_expanded(macros: Seq<(String, ProcMacroKind)>, i: int)
    requires
        0 <= i < macros.len(),
        macros[i].1 is Bang,
    ensures
        exists|k: int| to_expand(macros, k),
{
    if exists|j: int| 0 <= j < macros.len() && is_slint(#[trigger] macros[j]) {
        let j = choose|j: int| 0 <= j < macros.len() && is_slint(#[trigger] macros[j]);
        lemma_first_slint(macros, j);
    } else {
        lemma_first_bang(macros, i);
    }
}

proof fn lemma_first_slint(macros: Seq<(String, ProcMacroKind)>, j: int)
    requires
        0 <= j < macros.len(),
        is_slint(macros[j]),
    ensures
        exists|k: int| to_expand(macros, k),
    decreases j,
{
    if exists|l: int| 0 <= l < j && is_slint(#[trigger] macros[l]) {
        let l = choose|l: int| 0 <= l < j && is_slint(#[trigger] macros[l]);
        lemma_first_slint(macros, l);
    } else {
        assert(to_expand(macros, j));
    }
}

proof fn lemma_first_bang(macros: Seq<(String, ProcMacroKind)>, j: int)
    requires
        0 <= j < macros.len(),
        is_bang(macros[j]),
        forall|i: int| 0 <= i < macros.len() ==> !is_slint(#[trigger] macros[i]),
    ensures
        exists|k: int| to_expand(macros, k),
    decreases j,
{
    if exists|l: int| 0 <= l < j && is_bang(#[trigger] macros[l]) {
        let l = choose|l: int| 0 <= l < j && is_bang(#[trigger] macros[l]);
        lemma_first_bang(macros, l);
    } else {
        assert(to_expand(macros, j));
    }
}

/// The macro to expand is function-like. No function-like macro named `slint`
/// stands in front of it, and if its own name is another, none stands anywhere
/// and it is the first function-like macro of all.
pub proof fn law_which_macro_is_expanded(macros: Seq<(String, ProcMacroKind)>, k: int, i: int)
    requires
        to_expand(macros, k),
        0 <= i < macros.len(),
        macros[i].1 is Bang,
    ensures
        0 <= k < macros.len(),
        macros[k].1 is Bang,
        macros[i].0@ == "slint"@ ==> macros[k].0@ == "slint"@ && k <= i,
        macros[k].0@ != "slint"@ ==> k <= i,
{
    assert(is_bang(macros[i]));
    if macros[i].0@ == "slint"@ {
        assert(is_slint(macros[i]));
    }
}

/// At most one macro of a library is the one to expand.
pub proof fn law_one_macro_to_expand(macros: Seq<(String, ProcMacroKind)>, j: int, k: int)
    requires
        to_expand(macros, j),
        to_expand(macros, k),
    ensures
        j == k,
{
    if j < k {
        assert(is_bang(macros[j]));
    } else if k < j {
        assert(is_bang(macros[k]));
    }
}

/// A library with a function-like macro named `slint` has that one expanded,
/// wherever in the library it stands.
pub proof fn law_slint_is_preferred(macros: Seq<(String, ProcMacroKind)>, i: int, k: int)
    requires
        0 <= i < macros.len(),
        is_slint(macros[i]),
        to_expand(macros, k),
    ensures
        macros[k].0@ == "slint"@,
{
    assert(is_slint(macros[i]));
}

} // verus!
