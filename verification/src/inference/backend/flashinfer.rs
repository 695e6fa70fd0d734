//! Where the Python packages of the FlashInfer kernel may be.
use vstd::prelude::*;

use crate::text;
use crate::text::join_path;

verus! {

/// The directories that packages stand in under a virtual environment, newest
/// first.
pub open spec fn package_dirs() -> Seq<Seq<char>> {
    seq![
        "lib/python3.12/site-packages"@,
        "lib/python3.11/site-packages"@,
        "lib/python3.10/site-packages"@,
        "lib/python3.9/site-packages"@,
    ]
}

/// The directories that are tried last.
pub open spec fn usual_sites() -> Seq<Seq<char>> {
    seq![
        "/home/bodesi/venvs/sglang-lite/lib/python3.10/site-packages"@,
        "/home/bodesi/sglang-dflash-venv/lib/python3.10/site-packages"@,
        "/home/bodesi/venvs/sglang-lite/lib/python3.12/site-packages"@,
    ]
}

/// The directories to try, in this order: the one that was asked for, those of
/// the virtual environment, and the usual ones.
pub open spec fn sites(site: Option<Seq<char>>, venv: Option<Seq<char>>) -> Seq<Seq<char>> {
    (match site {
        Some(p) => seq![p],
        None => Seq::empty(),
    }) + (match venv {
        Some(v) => package_dirs().map_values(|d: Seq<char>| text::path_joined(v, d)),
        None => Seq::empty(),
    }) + usual_sites()
}

/// The directories to try for packages, in order.
pub fn site_candidates(site: &Option<String>, venv: &Option<String>) -> (res: Vec<String>)
    ensures
        text::all_chars(res@) == sites(text::opt_chars(*site), text::opt_chars(*venv)),
{
    let mut res: Vec<String> = Vec::new();
    if let Some(p) = site {
        res.push(p.clone());
    }
    if let Some(v) = venv {
        res.push(join_path(v.as_str(), "lib/python3.12/site-packages"));
        res.push(join_path(v.as_str(), "lib/python3.11/site-packages"));
        res.push(join_path(v.as_str(), "lib/python3.10/site-packages"));
        res.push(join_path(v.as_str(), "lib/python3.9/site-packages"));
    }
    res.push("/home/bodesi/venvs/sglang-lite/lib/python3.10/site-packages".to_string());
    res.push("/home/bodesi/sglang-dflash-venv/lib/python3.10/site-packages".to_string());
    res.push("/home/bodesi/venvs/sglang-lite/lib/python3.12/site-packages".to_string());
    assert(text::all_chars(res@) =~= sites(text::opt_chars(*site), text::opt_chars(*venv)));
    res
}

/// The first of several directories that is there; `there` says it of each.
pub fn discover_site_packages(candidates: &Vec<String>, there: &Vec<bool>) -> (res: Option<String>)
    requires
        there@.len() == candidates@.len(),
    ensures
        match res {
            Some(p) => exists|i: int|
                {
                    &&& 0 <= i < candidates@.len()
                    &&& #[trigger] there@[i]
                    &&& p@ == candidates@[i]@
                    &&& forall|j: int| 0 <= j < i ==> !#[trigger] there@[j]
                },
            None => forall|i: int| 0 <= i < there@.len() ==> !#[trigger] there@[i],
        },
{
    let mut i: usize = 0;
    while i < candidates.len()
        invariant
            i <= candidates@.len(),
            there@.len() == candidates@.len(),
            forall|j: int| 0 <= j < i ==> !#[trigger] there@[j],
        decreases candidates@.len() - i,
    {
        if there[i] {
            return Some(candidates[i].clone());
        }
        i += 1;
    }
    None
}

/// Where the kernel runs, and with which packages.
#[derive(Debug)]
pub struct FlashInferKernelConfig {
    pub site_packages: Option<String>,
    pub device: String,
}

impl FlashInferKernelConfig {
    /// On the device that was asked for, or on the first one.
    pub fn on(site_packages: Option<String>, device: Option<String>) -> (res: Self)
        ensures
            text::opt_chars(res.site_packages) == text::opt_chars(site_packages),
            res.device@ == match device {
                Some(d) => d@,
                None => "cuda:0"@,
            },
    {
        FlashInferKernelConfig {
            site_packages,
            device: match device {
                Some(d) => d,
                None => "cuda:0".to_string(),
            },
        }
    }
}

/// The directory that was asked for is tried first, then those of the virtual
/// environment, and the usual ones in any case.
pub proof fn law_sites(site: Option<Seq<char>>, venv: Option<Seq<char>>)
    ensures
        site matches Some(p) ==> sites(site, venv)[0] == p,
        site is None && venv is Some ==> sites(site, venv)[0] == text::path_joined(
            venv.unwrap(),
            "lib/python3.12/site-packages"@,
        ),
        sites(site, venv).len() == (if site is Some {
            1int
        } else {
            0
        }) + (if venv is Some {
            4int
        } else {
            0
        }) + 3,
        site is None && venv is None ==> sites(site, venv) == usual_sites(),
{
    if site is None && venv is None {
        assert(sites(site, venv) =~= usual_sites());
    }
}

} // verus!
