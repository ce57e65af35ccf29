//! Scanning a Global Assembly Cache listing for stale vendor assemblies.
use vstd::prelude::*;
use vstd::string::StrSliceExecFns;

use crate::error::ReconcileError;
use crate::text::{contains, contains_text, find_first, find_text, lex_less, same_text, text_less};

verus! {

/// The separator between version and public-key token in a folder name.
pub open spec fn separator() -> Seq<char> {
    "__"@
}

/// The text that marks a vendor folder as one to descend into.
pub open spec fn vendor_marker() -> Seq<char> {
    "Oracle"@
}

/// The version token of a version folder name: the text before the first
/// separator, or the whole name where there is none.
pub open spec fn version_part(name: Seq<char>) -> Seq<char> {
    match find_first(name, separator()) {
        Some(i) => name.subrange(0, i),
        None => name,
    }
}

/// A version folder name split into version and key: it holds exactly one
/// separator.
pub open spec fn split_version_key(name: Seq<char>) -> Option<(Seq<char>, Seq<char>)> {
    match find_first(name, separator()) {
        None => None,
        Some(i) => {
            let key = name.subrange(i + 2, name.len() as int);
            if contains(key, separator()) {
                None
            } else {
                Some((name.subrange(0, i), key))
            }
        },
    }
}

/// A version sorts after the expected one, compared as plain text.
pub open spec fn obsolete(version: Seq<char>, expected: Seq<char>) -> bool {
    lex_less(expected, version)
}

/// Whether an assembly version is stale: it sorts strictly after the
/// expected version, character by character, not number by number.
pub fn is_obsolete(version: &str, expected: &str) -> (r: bool)
    ensures
        r == obsolete(version@, expected@),
{
    text_less(expected, version)
}

proof fn lemma_occurs_in_bounds(s: Seq<char>, p: Seq<char>, i: int)
    requires
        find_first(s, p) == Some(i),
    ensures
        crate::text::occurs_at(s, p, i),
{
    lemma_find_some(s, p, 0, i);
}

proof fn lemma_find_some(s: Seq<char>, p: Seq<char>, j: int, i: int)
    requires
        crate::text::find_from(s, p, j) == Some(i),
    ensures
        crate::text::occurs_at(s, p, i),
    decreases s.len() + 1 - j,
{
    if j >= 0 && j + p.len() <= s.len() && !crate::text::occurs_at(s, p, j) {
        lemma_find_some(s, p, j + 1, i);
    }
}

/// The version token of a version folder name.
pub fn version_of_entry(name: &str) -> (r: &str)
    ensures
        r@ == version_part(name@),
{
    proof {
        reveal_strlit("__");
    }
    match find_text(name, "__") {
        Some(i) => {
            proof {
                lemma_occurs_in_bounds(name@, separator(), i as int);
            }
            name.substring_char(0, i)
        },
        None => name,
    }
}

/// Whether a version folder may stay: its version does not sort after the
/// expected version.
pub fn check_version_ok(ver_key: &str, expected: &str) -> (r: bool)
    ensures
        r == !obsolete(version_part(ver_key@), expected@),
{
    !is_obsolete(version_of_entry(ver_key), expected)
}

/// Whether a folder of the cache root is a vendor folder to descend into.
pub fn is_oracle_vendor(name: &str) -> (r: bool)
    ensures
        r == contains(name@, vendor_marker()),
{
    contains_text(name, "Oracle")
}

/// The cache that an assembly was found in.
#[derive(Debug, Clone, Copy, PartialEq, Eq, Structural)]
pub enum Architecture {
    Gac32,
    Gac64,
    GacMsil,
    Unknown,
}

impl Architecture {
    pub open spec fn of_tag(tag: Seq<char>) -> Architecture {
        if tag == "GAC_32"@ {
            Architecture::Gac32
        } else if tag == "GAC_64"@ {
            Architecture::Gac64
        } else if tag == "GAC_MSIL"@ {
            Architecture::GacMsil
        } else {
            Architecture::Unknown
        }
    }

    pub open spec fn processor_spec(self) -> Seq<char> {
        match self {
            Architecture::Gac32 => "x86"@,
            Architecture::Gac64 => "AMD64"@,
            Architecture::GacMsil => "MSIL"@,
            Architecture::Unknown => "##Unknown Architecture##"@,
        }
    }

    /// The architecture that a cache root's folder name stands for.
    pub fn from_tag(tag: &str) -> (r: Architecture)
        ensures
            r == Architecture::of_tag(tag@),
    {
        if same_text(tag, "GAC_32") {
            Architecture::Gac32
        } else if same_text(tag, "GAC_64") {
            Architecture::Gac64
        } else if same_text(tag, "GAC_MSIL") {
            Architecture::GacMsil
        } else {
            Architecture::Unknown
        }
    }

    /// The processor architecture named in an assembly identity.
    pub fn processor(&self) -> (r: &'static str)
        ensures
            r@ == self.processor_spec(),
    {
        match self {
            Architecture::Gac32 => "x86",
            Architecture::Gac64 => "AMD64",
            Architecture::GacMsil => "MSIL",
            Architecture::Unknown => "##Unknown Architecture##",
        }
    }
}

/// The fully qualified identity of an assembly.
pub open spec fn assembly_identity(
    name: Seq<char>,
    ver: Seq<char>,
    key: Seq<char>,
    arch: Seq<char>,
) -> Seq<char> {
    name + ", Version="@ + ver + ", Culture=neutral, PublicKeyToken="@ + key
        + ", processorArchitecture="@ + arch
}

/// The identity of the assembly in version folder `ver_key` of vendor
/// folder `vendor`, in the cache root named `gac_tag`.
pub open spec fn assembly_name_of(gac_tag: Seq<char>, vendor: Seq<char>, ver_key: Seq<char>) -> Option<
    Seq<char>,
> {
    match split_version_key(ver_key) {
        None => None,
        Some((ver, key)) => Some(
            assembly_identity(vendor, ver, key, Architecture::of_tag(gac_tag).processor_spec()),
        ),
    }
}

/// Builds the identity that uninstalling an assembly names.
pub fn make_assembly_name(gac_type: &str, vendor: &str, ver_key: &str) -> (r: Result<
    String,
    ReconcileError,
>)
    ensures
        match assembly_name_of(gac_type@, vendor@, ver_key@) {
            None => r matches Err(ReconcileError::MalformedEntry),
            Some(id) => r matches Ok(s) && s@ == id,
        },
{
    proof {
        reveal_strlit("__");
    }
    let i = match find_text(ver_key, "__") {
        None => return Err(ReconcileError::MalformedEntry),
        Some(i) => i,
    };
    proof {
        lemma_occurs_in_bounds(ver_key@, separator(), i as int);
    }
    let len = ver_key.unicode_len();
    let ver = ver_key.substring_char(0, i);
    let key = ver_key.substring_char(i + 2, len);
    if contains_text(key, "__") {
        return Err(ReconcileError::MalformedEntry);
    }
    let arch = Architecture::from_tag(gac_type);
    let mut s = String::from_str(vendor);
    s.append(", Version=");
    s.append(ver);
    s.append(", Culture=neutral, PublicKeyToken=");
    s.append(key);
    s.append(", processorArchitecture=");
    s.append(arch.processor());
    Ok(s)
}


/// A vendor folder of a cache root, with the names of its version folders.
#[derive(Debug, PartialEq, Eq)]
pub struct VendorDir {
    pub name: String,
    pub entries: Vec<String>,
}

impl View for VendorDir {
    type V = (Seq<char>, Seq<Seq<char>>);

    open spec fn view(&self) -> (Seq<char>, Seq<Seq<char>>) {
        (self.name@, self.entries.deep_view())
    }
}

/// The identities of the stale assemblies among the version folders
/// `entries` of one vendor folder, in order; `None` where a stale folder's
/// name is malformed.
pub open spec fn scan_entries(
    gac_tag: Seq<char>,
    vendor: Seq<char>,
    entries: Seq<Seq<char>>,
    expected: Seq<char>,
) -> Option<Seq<Seq<char>>>
    decreases entries.len(),
{
    if entries.len() == 0 {
        Some(Seq::empty())
    } else {
        match scan_entries(gac_tag, vendor, entries.drop_last(), expected) {
            None => None,
            Some(acc) => {
                let e = entries.last();
                if obsolete(version_part(e), expected) {
                    match assembly_name_of(gac_tag, vendor, e) {
                        None => None,
                        Some(id) => Some(acc.push(id)),
                    }
                } else {
                    Some(acc)
                }
            },
        }
    }
}

/// The identities of the stale assemblies of a cache root listing, vendor
/// folder by vendor folder; folders without the vendor marker are passed by.
pub open spec fn scan_vendors(
    gac_tag: Seq<char>,
    vendors: Seq<(Seq<char>, Seq<Seq<char>>)>,
    expected: Seq<char>,
) -> Option<Seq<Seq<char>>>
    decreases vendors.len(),
{
    if vendors.len() == 0 {
        Some(Seq::empty())
    } else {
        match scan_vendors(gac_tag, vendors.drop_last(), expected) {
            None => None,
            Some(acc) => {
                let v = vendors.last();
                if contains(v.0, vendor_marker()) {
                    match scan_entries(gac_tag, v.0, v.1, expected) {
                        None => None,
                        Some(ids) => Some(acc + ids),
                    }
                } else {
                    Some(acc)
                }
            },
        }
    }
}

pub open spec fn vendor_views(vendors: Seq<VendorDir>) -> Seq<(Seq<char>, Seq<Seq<char>>)> {
    vendors.map_values(|v: VendorDir| v@)
}

proof fn lemma_entries_fail_extends(
    gac_tag: Seq<char>,
    vendor: Seq<char>,
    entries: Seq<Seq<char>>,
    expected: Seq<char>,
    n: int,
)
    requires
        0 <= n <= entries.len(),
        scan_entries(gac_tag, vendor, entries.take(n), expected) is None,
    ensures
        scan_entries(gac_tag, vendor, entries, expected) is None,
    decreases entries.len(),
{
    if entries.len() == n {
        assert(entries.take(n) =~= entries);
    } else {
        assert(entries.drop_last().take(n) =~= entries.take(n));
        lemma_entries_fail_extends(gac_tag, vendor, entries.drop_last(), expected, n);
    }
}

proof fn lemma_vendors_fail_extends(
    gac_tag: Seq<char>,
    vendors: Seq<(Seq<char>, Seq<Seq<char>>)>,
    expected: Seq<char>,
    n: int,
)
    requires
        0 <= n <= vendors.len(),
        scan_vendors(gac_tag, vendors.take(n), expected) is None,
    ensures
        scan_vendors(gac_tag, vendors, expected) is None,
    decreases vendors.len(),
{
    if vendors.len() == n {
        assert(vendors.take(n) =~= vendors);
    } else {
        assert(vendors.drop_last().take(n) =~= vendors.take(n));
        lemma_vendors_fail_extends(gac_tag, vendors.drop_last(), expected, n);
    }
}

fn scan_vendor(gac_tag: &str, vendor: &VendorDir, expected: &str, out: &mut Vec<String>) -> (r:
    Result<(), ReconcileError>)
    ensures
        match scan_entries(gac_tag@, vendor.name@, vendor.entries.deep_view(), expected@) {
            None => r matches Err(ReconcileError::MalformedEntry),
            Some(ids) => r is Ok && final(out).deep_view() == old(out).deep_view() + ids,
        },
{
    let ghost all = vendor.entries.deep_view();
    let ghost start = out.deep_view();
    let mut i: usize = 0;
    while i < vendor.entries.len()
        invariant
            all == vendor.entries.deep_view(),
            0 <= i <= vendor.entries@.len(),
            scan_entries(gac_tag@, vendor.name@, all.take(i as int), expected@) matches Some(
                ids,
            ) && out.deep_view() == start + ids,
        decreases vendor.entries.len() - i,
    {
        let entry = vendor.entries[i].as_str();
        proof {
            assert(all.take(i + 1).drop_last() =~= all.take(i as int));
            assert(all.take(i + 1).last() == entry@);
        }
        if !check_version_ok(entry, expected) {
            let ghost before = out.deep_view();
            match make_assembly_name(gac_tag, vendor.name.as_str(), entry) {
                Err(e) => {
                    proof {
                        lemma_entries_fail_extends(gac_tag@, vendor.name@, all, expected@, i + 1);
                    }
                    return Err(e);
                },
                Ok(id) => {
                    out.push(id);
                    proof {
                        let ids = scan_entries(gac_tag@, vendor.name@, all.take(i as int), expected@)->0;
                        assert(out.deep_view() =~= before.push(id@));
                        assert(start + ids.push(id@) =~= (start + ids).push(id@));
                    }
                },
            }
        }
        i = i + 1;
    }
    proof {
        assert(all.take(all.len() as int) =~= all);
    }
    Ok(())
}

/// The identities of the stale assemblies in a cache root listing, in the
/// order of the listing. `gac_tag` is the root's folder name; each vendor
/// folder whose name holds the vendor marker is searched, the others are
/// passed by. A stale version folder with a malformed name ends the scan.
pub fn scan_gac(gac_tag: &str, vendors: &Vec<VendorDir>, expected: &str) -> (r: Result<
    Vec<String>,
    ReconcileError,
>)
    ensures
        match scan_vendors(gac_tag@, vendor_views(vendors@), expected@) {
            None => r matches Err(ReconcileError::MalformedEntry),
            Some(ids) => r matches Ok(v) && v.deep_view() == ids,
        },
{
    let ghost all = vendor_views(vendors@);
    let mut out: Vec<String> = Vec::new();
    proof {
        assert(out.deep_view() =~= Seq::<Seq<char>>::empty());
    }
    let mut i: usize = 0;
    while i < vendors.len()
        invariant
            all == vendor_views(vendors@),
            0 <= i <= vendors@.len(),
            scan_vendors(gac_tag@, all.take(i as int), expected@) matches Some(ids)
                && out.deep_view() == ids,
        decreases vendors.len() - i,
    {
        let vendor = &vendors[i];
        proof {
            assert(all.take(i + 1).drop_last() =~= all.take(i as int));
            assert(all.take(i + 1).last() == vendor@);
        }
        if is_oracle_vendor(vendor.name.as_str()) {
            match scan_vendor(gac_tag, vendor, expected, &mut out) {
                Err(e) => {
                    proof {
                        lemma_vendors_fail_extends(gac_tag@, all, expected@, i + 1);
                    }
                    return Err(e);
                },
                Ok(()) => {},
            }
        }
        i = i + 1;
    }
    proof {
        assert(all.take(all.len() as int) =~= all);
    }
    Ok(out)
}


proof fn lemma_not_less_self(v: Seq<char>, i: int)
    requires
        0 <= i,
    ensures
        !crate::text::lex_less_from(v, v, i),
    decreases v.len() - i,
{
    if i < v.len() {
        lemma_not_less_self(v, i + 1);
    }
}

/// A version equal to the expected version is never stale.
pub proof fn lemma_equal_version_kept(v: Seq<char>)
    ensures
        !obsolete(v, v),
{
    lemma_not_less_self(v, 0);
}

/// Whether a listed vendor folder is one that a scan descends into.
pub open spec fn is_vendor_folder(v: (Seq<char>, Seq<Seq<char>>)) -> bool {
    contains(v.0, vendor_marker())
}

/// A scan reads only the vendor folders whose names hold the vendor marker:
/// it gives the same result on the listing with every other folder removed.
pub proof fn lemma_scan_reads_marked_vendors_only(
    gac_tag: Seq<char>,
    vendors: Seq<(Seq<char>, Seq<Seq<char>>)>,
    expected: Seq<char>,
)
    ensures
        scan_vendors(gac_tag, vendors, expected) == scan_vendors(
            gac_tag,
            vendors.filter(|v: (Seq<char>, Seq<Seq<char>>)| is_vendor_folder(v)),
            expected,
        ),
    decreases vendors.len(),
{
    let pred = |v: (Seq<char>, Seq<Seq<char>>)| is_vendor_folder(v);
    reveal(Seq::filter);
    if vendors.len() > 0 {
        lemma_scan_reads_marked_vendors_only(gac_tag, vendors.drop_last(), expected);
        let sub = vendors.drop_last().filter(pred);
        if pred(vendors.last()) {
            let f = vendors.filter(pred);
            assert(f == sub.push(vendors.last()));
            assert(f.drop_last() =~= sub);
        }
    }
}


/// `id` is the identity of one of the version folders `entries` of `vendor`.
pub open spec fn names_entry(gac_tag: Seq<char>, vendor: Seq<char>, entries: Seq<Seq<char>>, id: Seq<char>) -> bool {
    exists|j: int| 0 <= j < entries.len() && #[trigger] assembly_name_of(gac_tag, vendor, entries[j]) == Some(id)
}

/// `id` is the identity of a version folder of a listed vendor folder whose
/// name holds the vendor marker.
pub open spec fn names_marked_entry(
    gac_tag: Seq<char>,
    vendors: Seq<(Seq<char>, Seq<Seq<char>>)>,
    id: Seq<char>,
) -> bool {
    exists|i: int|
        0 <= i < vendors.len() && is_vendor_folder(vendors[i]) && #[trigger] names_entry(
            gac_tag,
            vendors[i].0,
            vendors[i].1,
            id,
        )
}

proof fn lemma_entries_name_folders(
    gac_tag: Seq<char>,
    vendor: Seq<char>,
    entries: Seq<Seq<char>>,
    expected: Seq<char>,
)
    ensures
        scan_entries(gac_tag, vendor, entries, expected) matches Some(ids) ==> forall|k: int|
            0 <= k < ids.len() ==> names_entry(gac_tag, vendor, entries, #[trigger] ids[k]),
    decreases entries.len(),
{
    if entries.len() > 0 {
        let prev = entries.drop_last();
        lemma_entries_name_folders(gac_tag, vendor, prev, expected);
        if let Some(ids) = scan_entries(gac_tag, vendor, entries, expected) {
            let acc = scan_entries(gac_tag, vendor, prev, expected)->0;
            assert forall|k: int| 0 <= k < ids.len() implies names_entry(
                gac_tag,
                vendor,
                entries,
                #[trigger] ids[k],
            ) by {
                if k < acc.len() {
                    assert(ids[k] == acc[k]);
                    assert(names_entry(gac_tag, vendor, prev, acc[k]));
                    let j = choose|j: int|
                        0 <= j < prev.len() && #[trigger] assembly_name_of(gac_tag, vendor, prev[j])
                            == Some(acc[k]);
                    assert(entries[j] == prev[j]);
                } else {
                    let j = entries.len() - 1;
                    assert(assembly_name_of(gac_tag, vendor, entries[j]) == Some(ids[k]));
                }
            }
        }
    }
}

/// Every identity that a scan reports is that of a version folder of a
/// vendor folder whose name holds the vendor marker; folders of other
/// vendors never contribute.
pub proof fn lemma_scan_names_marked_folders(
    gac_tag: Seq<char>,
    vendors: Seq<(Seq<char>, Seq<Seq<char>>)>,
    expected: Seq<char>,
)
    ensures
        scan_vendors(gac_tag, vendors, expected) matches Some(ids) ==> forall|k: int|
            0 <= k < ids.len() ==> names_marked_entry(gac_tag, vendors, #[trigger] ids[k]),
    decreases vendors.len(),
{
    if vendors.len() > 0 {
        let prev = vendors.drop_last();
        let v = vendors.last();
        lemma_scan_names_marked_folders(gac_tag, prev, expected);
        lemma_entries_name_folders(gac_tag, v.0, v.1, expected);
        if let Some(ids) = scan_vendors(gac_tag, vendors, expected) {
            let acc = scan_vendors(gac_tag, prev, expected)->0;
            assert forall|k: int| 0 <= k < ids.len() implies names_marked_entry(
                gac_tag,
                vendors,
                #[trigger] ids[k],
            ) by {
                if k < acc.len() {
                    assert(ids[k] == acc[k]);
                    assert(names_marked_entry(gac_tag, prev, acc[k]));
                    let i = choose|i: int|
                        0 <= i < prev.len() && is_vendor_folder(prev[i]) && #[trigger] names_entry(
                            gac_tag,
                            prev[i].0,
                            prev[i].1,
                            acc[k],
                        );
                    assert(vendors[i] == prev[i]);
                } else {
                    let found = scan_entries(gac_tag, v.0, v.1, expected)->0;
                    assert(ids[k] == found[k - acc.len()]);
                    assert(names_entry(gac_tag, v.0, v.1, found[k - acc.len()]));
                    assert(vendors[vendors.len() - 1] == v);
                }
            }
        }
    }
}

} // verus!
