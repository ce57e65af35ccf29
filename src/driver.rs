//! One reconciliation run: from the two inventories to the uninstall commands.
use vstd::prelude::*;
use vstd::string::StringSliceAdditionalSpecFns;

use crate::error::ReconcileError;
use crate::gac::{scan_gac, scan_vendors, vendor_views, VendorDir};
use crate::inventory::{extracted_version, parse_version, within_tokenizer_limits, xml_events_of};
use crate::version::{get_net_match_ver, net_version_of_captures, regex_captures_of, VERSION_PATTERN};

verus! {

/// A cache root as listed: its folder name (`GAC_32`, `GAC_64`, ...) and
/// its vendor folders.
#[derive(Debug, PartialEq, Eq)]
pub struct GacRoot {
    pub tag: String,
    pub vendors: Vec<VendorDir>,
}

/// What a successful run reports.
#[derive(Debug, PartialEq, Eq)]
pub struct Report {
    /// The driver version that the assemblies should carry.
    pub expected: String,
    /// One uninstall command per stale assembly.
    pub commands: Vec<String>,
}

/// How the two inventories settle the installed version.
pub enum Selection {
    NoInstall,
    Mismatch(Seq<char>, Seq<char>),
    Chosen(Seq<char>),
}

/// Neither inventory gives a version: no install; both give different
/// ones: a mismatch; otherwise the version that is given.
pub open spec fn select_spec(v32: Option<Seq<char>>, v64: Option<Seq<char>>) -> Selection {
    match (v32, v64) {
        (None, None) => Selection::NoInstall,
        (Some(a), Some(b)) => if a == b {
            Selection::Chosen(a)
        } else {
            Selection::Mismatch(a, b)
        },
        (Some(a), None) => Selection::Chosen(a),
        (None, Some(b)) => Selection::Chosen(b),
    }
}

/// The installed version that an inventory document yields, if it was read,
/// is within the tokenizer's limits, and holds one.
pub open spec fn inventory_version(doc: Option<&str>) -> Option<Seq<char>> {
    match doc {
        None => None,
        Some(d) => if !within_tokenizer_limits(d.spec_bytes()) {
            None
        } else {
            match xml_events_of(d@) {
                None => None,
                Some(evs) => extracted_version(evs),
            }
        },
    }
}

/// The driver version for an installed version, where it has five groups.
pub open spec fn driver_version_of(installed: Seq<char>) -> Option<Seq<char>> {
    match regex_captures_of(VERSION_PATTERN@, installed) {
        None => None,
        Some(c) => net_version_of_captures(c),
    }
}

pub open spec fn ok_text(v: Result<String, ReconcileError>) -> Option<Seq<char>> {
    match v {
        Ok(s) => Some(s@),
        Err(_) => None,
    }
}

/// Settles the installed version from what the 32-bit and the 64-bit
/// inventory gave; a failure of one of them alone is tolerated.
pub fn select_version(
    v32: Result<String, ReconcileError>,
    v64: Result<String, ReconcileError>,
) -> (r: Result<String, ReconcileError>)
    ensures
        match select_spec(ok_text(v32), ok_text(v64)) {
            Selection::NoInstall => r matches Err(ReconcileError::NoInstallFound),
            Selection::Mismatch(a, b) => r matches Err(ReconcileError::VersionMismatch { v32: x, v64: y })
                && x@ == a && y@ == b,
            Selection::Chosen(v) => r matches Ok(s) && s@ == v,
        },
{
    match (v32, v64) {
        (Err(_), Err(_)) => Err(ReconcileError::NoInstallFound),
        (Ok(a), Ok(b)) => {
            if a == b {
                Ok(a)
            } else {
                Err(ReconcileError::VersionMismatch { v32: a, v64: b })
            }
        },
        (Ok(a), Err(_)) => Ok(a),
        (Err(_), Ok(b)) => Ok(b),
    }
}

fn version_from(doc: Option<&str>) -> (r: Result<String, ReconcileError>)
    ensures
        ok_text(r) == inventory_version(doc),
{
    match doc {
        None => Err(ReconcileError::Io),
        Some(d) => parse_version(d),
    }
}

/// The driver version expected of the assemblies, from the two inventory
/// documents; `None` stands for an inventory that could not be read.
pub fn expected_version(inv32: Option<&str>, inv64: Option<&str>) -> (r: Result<
    String,
    ReconcileError,
>)
    ensures
        match select_spec(inventory_version(inv32), inventory_version(inv64)) {
            Selection::NoInstall => r matches Err(ReconcileError::NoInstallFound),
            Selection::Mismatch(a, b) => r matches Err(ReconcileError::VersionMismatch { v32: x, v64: y })
                && x@ == a && y@ == b,
            Selection::Chosen(v) => match driver_version_of(v) {
                None => r matches Err(ReconcileError::VersionParse),
                Some(e) => r matches Ok(s) && s@ == e,
            },
        },
{
    let installed = select_version(version_from(inv32), version_from(inv64))?;
    get_net_match_ver(installed.as_str())
}

pub open spec fn root_views(roots: Seq<GacRoot>) -> Seq<(Seq<char>, Seq<(Seq<char>, Seq<Seq<char>>)>)> {
    roots.map_values(|g: GacRoot| (g.tag@, vendor_views(g.vendors@)))
}

/// The stale assembly identities of all roots, root after root, each in the
/// order of its listing; `None` where a scan fails.
pub open spec fn scan_roots_spec(
    roots: Seq<(Seq<char>, Seq<(Seq<char>, Seq<Seq<char>>)>)>,
    expected: Seq<char>,
) -> Option<Seq<Seq<char>>>
    decreases roots.len(),
{
    if roots.len() == 0 {
        Some(Seq::empty())
    } else {
        match scan_roots_spec(roots.drop_last(), expected) {
            None => None,
            Some(acc) => match scan_vendors(roots.last().0, roots.last().1, expected) {
                None => None,
                Some(ids) => Some(acc + ids),
            },
        }
    }
}

proof fn lemma_roots_fail_extends(
    roots: Seq<(Seq<char>, Seq<(Seq<char>, Seq<Seq<char>>)>)>,
    expected: Seq<char>,
    n: int,
)
    requires
        0 <= n <= roots.len(),
        scan_roots_spec(roots.take(n), expected) is None,
    ensures
        scan_roots_spec(roots, expected) is None,
    decreases roots.len(),
{
    if roots.len() == n {
        assert(roots.take(n) =~= roots);
    } else {
        assert(roots.drop_last().take(n) =~= roots.take(n));
        lemma_roots_fail_extends(roots.drop_last(), expected, n);
    }
}

/// Scans the cache roots in order and gathers the stale assembly identities.
pub fn scan_roots(roots: &Vec<GacRoot>, expected: &str) -> (r: Result<Vec<String>, ReconcileError>)
    ensures
        match scan_roots_spec(root_views(roots@), expected@) {
            None => r matches Err(ReconcileError::MalformedEntry),
            Some(ids) => r matches Ok(v) && v.deep_view() == ids,
        },
{
    let ghost all = root_views(roots@);
    let mut out: Vec<String> = Vec::new();
    proof {
        assert(out.deep_view() =~= Seq::<Seq<char>>::empty());
    }
    let mut i: usize = 0;
    while i < roots.len()
        invariant
            all == root_views(roots@),
            0 <= i <= roots@.len(),
            scan_roots_spec(all.take(i as int), expected@) matches Some(ids) && out.deep_view()
                == ids,
        decreases roots.len() - i,
    {
        let root = &roots[i];
        proof {
            assert(all.take(i + 1).drop_last() =~= all.take(i as int));
            assert(all.take(i + 1).last() == (root.tag@, vendor_views(root.vendors@)));
        }
        match scan_gac(root.tag.as_str(), &root.vendors, expected) {
            Err(e) => {
                proof {
                    lemma_roots_fail_extends(all, expected@, i + 1);
                }
                return Err(e);
            },
            Ok(mut ids) => {
                let ghost before = out.deep_view();
                let ghost found = ids.deep_view();
                out.append(&mut ids);
                proof {
                    assert(out.deep_view() =~= before + found);
                }
            },
        }
        i = i + 1;
    }
    proof {
        assert(all.take(all.len() as int) =~= all);
    }
    Ok(out)
}

/// The command line that uninstalls the assembly with identity `id`.
pub open spec fn uninstall_command_spec(id: Seq<char>) -> Seq<char> {
    "gacutil /u \""@ + id + "\""@
}

/// Builds the command line that uninstalls one assembly.
pub fn uninstall_command(id: &str) -> (r: String)
    ensures
        r@ == uninstall_command_spec(id@),
{
    let mut s = String::from_str("gacutil /u \"");
    s.append(id);
    s.append("\"");
    s
}

/// One uninstall command per identity, in order.
pub fn uninstall_commands(ids: &Vec<String>) -> (r: Vec<String>)
    ensures
        r@.len() == ids@.len(),
        forall|i: int| 0 <= i < ids@.len() ==> r@[i]@ == uninstall_command_spec(ids@[i]@),
{
    let mut out: Vec<String> = Vec::new();
    let mut i: usize = 0;
    while i < ids.len()
        invariant
            0 <= i <= ids@.len(),
            out@.len() == i,
            forall|k: int| 0 <= k < i ==> out@[k]@ == uninstall_command_spec(ids@[k]@),
        decreases ids.len() - i,
    {
        out.push(uninstall_command(ids[i].as_str()));
        i = i + 1;
    }
    out
}

/// A whole run: settles the expected driver version from the two inventory
/// documents, scans the cache roots in order, and lists one uninstall
/// command per stale assembly.
pub fn reconcile(inv32: Option<&str>, inv64: Option<&str>, roots: &Vec<GacRoot>) -> (r: Result<
    Report,
    ReconcileError,
>)
    ensures
        match select_spec(inventory_version(inv32), inventory_version(inv64)) {
            Selection::NoInstall => r matches Err(ReconcileError::NoInstallFound),
            Selection::Mismatch(a, b) => r matches Err(ReconcileError::VersionMismatch { v32: x, v64: y })
                && x@ == a && y@ == b,
            Selection::Chosen(v) => match driver_version_of(v) {
                None => r matches Err(ReconcileError::VersionParse),
                Some(e) => match scan_roots_spec(root_views(roots@), e) {
                    None => r matches Err(ReconcileError::MalformedEntry),
                    Some(ids) => r matches Ok(rep) && rep.expected@ == e && rep.commands@.len()
                        == ids.len() && forall|i: int|
                        0 <= i < ids.len() ==> rep.commands@[i]@ == uninstall_command_spec(ids[i]),
                },
            },
        },
{
    let expected = expected_version(inv32, inv64)?;
    let ids = scan_roots(roots, expected.as_str())?;
    proof {
        assert forall|i: int| 0 <= i < ids@.len() implies ids@[i]@ == ids.deep_view()[i] by {}
    }
    let commands = uninstall_commands(&ids);
    Ok(Report { expected, commands })
}

} // verus!
