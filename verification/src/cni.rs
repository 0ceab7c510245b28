//! `helyos setup cni`: which CNI plugin archive to download, and the report
//! on what was installed.
use vstd::prelude::*;
use crate::panel::strings_view;
use crate::text::{chars_of, concat2, concat3, eq_str, lex_lt, lex_order, owned};

verus! {

/// The CNI release name of a CPU architecture (`amd64` for x86-64, `arm64`
/// for AArch64); none for any other.
pub open spec fn cni_arch_of(target: Seq<char>) -> Option<Seq<char>> {
    if target == "x86_64"@ {
        Some("amd64"@)
    } else if target == "aarch64"@ {
        Some("arm64"@)
    } else {
        None
    }
}

/// The CNI name of the architecture the CLI runs on (`std::env::consts::ARCH`).
pub fn cni_arch(target: &str) -> (r: Option<&'static str>)
    ensures
        match r {
            Some(a) => cni_arch_of(target@) == Some(a@),
            None => cni_arch_of(target@) is None,
        },
{
    if eq_str(target, "x86_64") {
        Some("amd64")
    } else if eq_str(target, "aarch64") {
        Some("arm64")
    } else {
        None
    }
}

/// The archive of the CNI plugins for an architecture and version.
pub fn cni_archive_name(arch: &str, version: &str) -> (r: String)
    ensures
        r@ == "cni-plugins-linux-"@ + arch@ + "-v"@ + version@ + ".tgz"@,
{
    let mut r = concat3("cni-plugins-linux-", arch, "-v");
    r.append(version);
    r.append(".tgz");
    r
}

/// Where the archive is downloaded from.
pub fn cni_download_url(version: &str, archive: &str) -> (r: String)
    ensures
        r@ == "https://github.com/containernetworking/plugins/releases/download/v"@ + version@ + seq!['/'] + archive@,
{
    proof {
        reveal_strlit("/");
        assert("/"@ =~= seq!['/']);
    }
    let mut r = concat2("https://github.com/containernetworking/plugins/releases/download/v", version);
    r.append("/");
    r.append(archive);
    r
}

// ---------------------------------------------------------------------------
// The report
// ---------------------------------------------------------------------------

/// The names are in ascending order (as `str` orders them).
pub open spec fn ascending(s: Seq<Seq<char>>) -> bool {
    forall|i: int, j: int| 0 <= i < j < s.len() ==> !lex_lt(#[trigger] s[j], #[trigger] s[i])
}

/// The installed plugin names in ascending order.
pub fn sort_names(names: &Vec<String>) -> (r: Vec<String>)
    ensures
        ascending(strings_view(r@)),
        strings_view(r@).to_multiset() == strings_view(names@).to_multiset(),
{
    broadcast use vstd::seq_lib::group_to_multiset_ensures;
    let ghost input = strings_view(names@);
    let mut out: Vec<String> = Vec::new();
    let mut k: usize = 0;
    while k < names.len()
        invariant
            input == strings_view(names@),
            k <= names.len(),
            ascending(strings_view(out@)),
            strings_view(out@).to_multiset() == input.take(k as int).to_multiset(),
        decreases names.len() - k,
    {
        let name = chars_of(names[k].as_str());
        let ghost ov = strings_view(out@);
        let mut j: usize = 0;
        while j < out.len()
            invariant
                ov == strings_view(out@),
                j <= out.len(),
                forall|i: int| 0 <= i < j ==> !lex_lt(name@, #[trigger] ov[i]),
            ensures
                j <= out.len(),
                forall|i: int| 0 <= i < j ==> !lex_lt(name@, #[trigger] ov[i]),
                j < out.len() ==> lex_lt(name@, ov[j as int]),
            decreases out.len() - j,
        {
            let other = chars_of(out[j].as_str());
            if lex_order(&name, &other) < 0 {
                break;
            }
            j += 1;
        }
        out.insert(j, owned(names[k].as_str()));
        proof {
            let nv = strings_view(out@);
            assert(nv =~= ov.insert(j as int, name@));
            vstd::seq_lib::to_multiset_insert(ov, j as int, name@);
            assert(nv.to_multiset() == ov.to_multiset().insert(name@));
            assert(input[k as int] == name@);
            assert(input.take(k + 1) =~= input.take(k as int).push(input[k as int]));
            vstd::seq_lib::to_multiset_build(input.take(k as int), input[k as int]);
            assert(nv.to_multiset() == input.take(k + 1).to_multiset());
            assert forall|a: int, b: int| 0 <= a < b < nv.len() implies !lex_lt(#[trigger] nv[b], #[trigger] nv[a]) by {
                if b < j {
                } else if b == j {
                    assert(nv[b] == name@);
                    assert(nv[a] == ov[a]);
                } else if a < j {
                    // nv[a] = ov[a] <= name < ov[j] <= ov[b - 1] = nv[b]
                    assert(nv[b] == ov[b - 1]);
                    assert(nv[a] == ov[a]);
                    if lex_lt(nv[b], nv[a]) {
                        if j < ov.len() {
                            crate::text::lemma_lex_total(name@, ov[a]);
                            if lex_lt(ov[a], name@) {
                                crate::text::lemma_lex_trans(ov[b - 1], ov[a], name@);
                                crate::text::lemma_lex_trans(ov[b - 1], name@, ov[j as int]);
                                if j < b - 1 {
                                } else {
                                    crate::text::lemma_lex_irreflexive(ov[j as int]);
                                }
                            } else {
                                crate::text::lemma_lex_trans(ov[b - 1], name@, ov[j as int]);
                                if j < b - 1 {
                                } else {
                                    crate::text::lemma_lex_irreflexive(ov[j as int]);
                                }
                            }
                        }
                    }
                } else if a == j {
                    assert(nv[a] == name@);
                    assert(nv[b] == ov[b - 1]);
                    if lex_lt(nv[b], name@) {
                        crate::text::lemma_lex_trans(ov[b - 1], name@, ov[j as int]);
                        if j < b - 1 {
                        } else {
                            crate::text::lemma_lex_irreflexive(ov[j as int]);
                        }
                    }
                } else {
                    assert(nv[a] == ov[a - 1]);
                    assert(nv[b] == ov[b - 1]);
                }
            }
        }
        k += 1;
    }
    assert(input.take(names.len() as int) =~= input);
    out
}

/// The plugins a node needs.
pub open spec fn required_plugins() -> Seq<Seq<char>> {
    seq!["bridge"@, "loopback"@, "host-local"@]
}

/// The required plugins that are not among `installed`, in order.
pub open spec fn missing_of(installed: Seq<Seq<char>>) -> Seq<Seq<char>> {
    required_plugins().filter(|r: Seq<char>| !installed.contains(r))
}

fn is_installed(installed: &Vec<String>, name: &str) -> (b: bool)
    ensures
        b == strings_view(installed@).contains(name@),
{
    let ghost iv = strings_view(installed@);
    let mut i: usize = 0;
    while i < installed.len()
        invariant
            iv == strings_view(installed@),
            i <= installed.len(),
            forall|k: int| 0 <= k < i ==> iv[k] != name@,
        decreases installed.len() - i,
    {
        if eq_str(installed[i].as_str(), name) {
            assert(iv[i as int] == name@);
            return true;
        }
        i += 1;
    }
    false
}

/// The required plugins (`bridge`, `loopback`, `host-local`) missing from
/// what was installed.
pub fn missing_plugins(installed: &Vec<String>) -> (r: Vec<&'static str>)
    ensures
        r@.map_values(|s: &str| s@) == missing_of(strings_view(installed@)),
{
    let ghost iv = strings_view(installed@);
    let required: [&'static str; 3] = ["bridge", "loopback", "host-local"];
    assert(required@.map_values(|s: &str| s@) =~= required_plugins());
    let mut r: Vec<&'static str> = Vec::new();
    let mut i: usize = 0;
    while i < 3
        invariant
            iv == strings_view(installed@),
            i <= 3,
            required@.map_values(|s: &str| s@) == required_plugins(),
            r@.map_values(|s: &str| s@) == required_plugins().take(i as int).filter(|q: Seq<char>| !iv.contains(q)),
        decreases 3 - i,
    {
        let name = required[i];
        proof {
            let t = required_plugins().take(i + 1);
            assert(t.drop_last() =~= required_plugins().take(i as int));
            reveal_with_fuel(Seq::<_>::filter, 1);
        }
        let ghost before = r@;
        if !is_installed(installed, name) {
            r.push(name);
            assert(r@.map_values(|s: &str| s@) =~= before.map_values(|s: &str| s@).push(name@));
        }
        i += 1;
    }
    assert(required_plugins().take(3) =~= required_plugins());
    r
}

/// The warning about missing plugins, none when all are there.
pub fn missing_warning(missing: &Vec<&str>) -> (r: Option<String>)
    ensures
        missing.len() == 0 <==> r is None,
        r is Some ==> r->0@ == "\nWarning: missing required plugins: "@ + joined(missing@.map_values(|s: &str| s@)),
{
    if missing.len() == 0 {
        return None;
    }
    let mut r = owned("\nWarning: missing required plugins: ");
    let ghost mv = missing@.map_values(|s: &str| s@);
    let ghost head = r@;
    let mut i: usize = 0;
    while i < missing.len()
        invariant
            mv == missing@.map_values(|s: &str| s@),
            i <= missing.len(),
            r@ == head + joined(mv.take(i as int)),
        decreases missing.len() - i,
    {
        proof {
            crate::panel::lemma_lines_take(mv, i as int);
            reveal_strlit(", ");
        }
        if i > 0 {
            r.append(", ");
        }
        r.append(missing[i]);
        assert(r@ =~= head + joined(mv.take(i + 1)));
        i += 1;
    }
    assert(mv.take(missing.len() as int) =~= mv);
    Some(r)
}

/// Names joined by `, `.
pub open spec fn joined(s: Seq<Seq<char>>) -> Seq<char>
    decreases s.len(),
{
    if s.len() == 0 {
        seq![]
    } else if s.len() == 1 {
        s[0]
    } else {
        joined(s.drop_last()) + ", "@ + s.last()
    }
}

} // verus!
