//! Proxmox operations, driven through `pvesh` and `pct` on the node.
//!
//! The important behaviour here is not the command building; it is the
//! ownership guard, which stops this tool from ever modifying a guest it did
//! not create. The commands are run, and the listing read, by the binary;
//! what to run and what to make of the answers is decided here.

use vstd::prelude::*;
use crate::text::{
    chars_eq_str, chars_of, dec, dec_int, extend_str, push_dec, push_dec_i64, rfind_char,
    rfind_char_vec, slice_range, split, split_chars, string_views, to_string, trim, trimmed,
    views,
};
use crate::netid::{debug_str, str_debug};
use crate::provision::config::{owner_tag, owner_tag_str, spec_net0, spec_tags, Guest};
use crate::provision::runner::Output;

verus! {

broadcast use vstd::string::group_string_axioms;

/// A container as Proxmox reports it.
#[derive(Clone, Debug, Default)]
pub struct Lxc {
    pub vmid: u32,
    pub name: Option<String>,
    pub status: Option<String>,
    /// Semicolon-separated in Proxmox's own representation.
    pub tags: Option<String>,
}

/// The non-blank tags, each trimmed.
pub open spec fn spec_tag_list(tags: Option<String>) -> Seq<Seq<char>> {
    crate::config::nonblank_trimmed(
        split(
            match tags {
                Some(t) => t@,
                None => Seq::empty(),
            },
            ';',
        ),
    )
}

/// Ownership is an exact tag match: a guest tagged with something that merely
/// contains the marker is not ours.
pub open spec fn spec_is_ours(l: Lxc) -> bool {
    spec_tag_list(l.tags).contains(owner_tag())
}

impl Lxc {
    pub fn tag_list(&self) -> (r: Vec<String>)
        ensures
            string_views(r@) == spec_tag_list(self.tags),
    {
        let raw: &str = match &self.tags {
            Some(t) => t.as_str(),
            None => "",
        };
        proof {
            reveal_strlit("");
            assert(""@ =~= Seq::<char>::empty());
        }
        assert(raw@ == match self.tags {
            Some(t) => t@,
            None => Seq::<char>::empty(),
        });
        let parts = split_chars(chars_of(raw).as_slice(), ';');
        let mut r: Vec<String> = Vec::new();
        let mut i: usize = 0;
        while i < parts.len()
            invariant
                i <= parts@.len(),
                views(parts@) == split(raw@, ';'),
                string_views(r@) == crate::config::nonblank_trimmed(
                    views(parts@).take(i as int),
                ),
            decreases parts.len() - i,
        {
            assert(views(parts@).take(i + 1).drop_last() =~= views(parts@).take(i as int));
            assert(views(parts@).take(i + 1).last() == parts@[i as int]@);
            let t = trimmed(parts[i].as_slice());
            if t.len() > 0 {
                let ghost before = r@;
                let s = to_string(t.as_slice());
                r.push(s);
                assert(string_views(r@) =~= string_views(before).push(t@));
            }
            i = i + 1;
        }
        assert(views(parts@).take(parts@.len() as int) =~= views(parts@));
        r
    }

    /// Whether the guest carries the ownership tag, exactly.
    pub fn is_ours(&self) -> (b: bool)
        ensures
            b == spec_is_ours(*self),
    {
        let tags = self.tag_list();
        let mut i: usize = 0;
        while i < tags.len()
            invariant
                i <= tags@.len(),
                string_views(tags@) == spec_tag_list(self.tags),
                forall|k: int| 0 <= k < i ==> spec_tag_list(self.tags)[k] != owner_tag(),
            decreases tags.len() - i,
        {
            assert(spec_tag_list(self.tags)[i as int] == tags@[i as int]@);
            if chars_eq_str(chars_of(tags[i].as_str()).as_slice(), owner_tag_str()) {
                assert(spec_tag_list(self.tags)[i as int] == owner_tag());
                return true;
            }
            i = i + 1;
        }
        false
    }

    pub fn is_running(&self) -> (b: bool)
        ensures
            b == spec_is_running(*self),
    {
        match &self.status {
            Some(s) => chars_eq_str(chars_of(s.as_str()).as_slice(), "running"),
            None => false,
        }
    }
}

/// The first container with the given VMID in a listing.
pub fn find_lxc(listing: &[Lxc], vmid: u32) -> (r: Option<Lxc>)
    ensures
        match r {
            Some(l) => exists|k: int|
                0 <= k < listing@.len() && listing@[k].vmid == vmid && l.vmid == vmid && (forall|
                    j: int,
                | 0 <= j < k ==> (#[trigger] listing@[j]).vmid != vmid) && l == listing@[k],
            None => forall|k: int| 0 <= k < listing@.len() ==> (#[trigger] listing@[k]).vmid != vmid,
        },
{
    let mut i: usize = 0;
    while i < listing.len()
        invariant
            i <= listing@.len(),
            forall|j: int| 0 <= j < i ==> (#[trigger] listing@[j]).vmid != vmid,
        decreases listing.len() - i,
    {
        if listing[i].vmid == vmid {
            let l = Lxc {
                vmid: listing[i].vmid,
                name: listing[i].name.clone(),
                status: listing[i].status.clone(),
                tags: listing[i].tags.clone(),
            };
            assert(l == listing@[i as int]);
            return Some(l);
        }
        i = i + 1;
    }
    None
}

/// The text shown for an optional value in a refusal.
pub open spec fn shown(o: Option<String>, absent: Seq<char>) -> Seq<char> {
    debug_str(
        match o {
            Some(s) => s@,
            None => absent,
        },
    )
}

/// Why a VMID that belongs to something else is refused.
pub open spec fn refusal_message(vmid: u32, node: Seq<char>, l: Lxc) -> Seq<char> {
    "REFUSING TO CONTINUE: container "@ + dec(vmid as nat) + " on node "@ + node
        + " already exists (name "@ + shown(l.name, "<unnamed>"@) + ", tags "@ + shown(
        l.tags,
        "<none>"@,
    ) + ") and does not carry the '"@ + owner_tag()
        + "' tag. This tool only manages guests it created, so nothing has been changed. Choose a different vmid."@
}

/// The ownership guard: nothing on the VMID is fine, a guest carrying our
/// tag is ours, and anything else stops everything.
pub fn ownership(vmid: u32, node: &str, existing: Option<Lxc>) -> (r: Result<Option<Lxc>, String>)
    ensures
        match existing {
            None => r == Ok::<Option<Lxc>, String>(None),
            Some(l) => if spec_is_ours(l) {
                r == Ok::<Option<Lxc>, String>(Some(l))
            } else {
                r is Err && r->Err_0@ == refusal_message(vmid, node@, l)
            },
        },
{
    let l = match existing {
        None => {
            return Ok(None);
        },
        Some(l) => l,
    };
    if l.is_ours() {
        return Ok(Some(l));
    }
    let mut out: Vec<char> = Vec::new();
    extend_str(&mut out, "REFUSING TO CONTINUE: container ");
    push_dec(&mut out, vmid as u64);
    extend_str(&mut out, " on node ");
    extend_str(&mut out, node);
    extend_str(&mut out, " already exists (name ");
    let name: &str = match &l.name {
        Some(n) => n.as_str(),
        None => "<unnamed>",
    };
    extend_str(&mut out, str_debug(name).as_str());
    extend_str(&mut out, ", tags ");
    let tags: &str = match &l.tags {
        Some(t) => t.as_str(),
        None => "<none>",
    };
    extend_str(&mut out, str_debug(tags).as_str());
    extend_str(&mut out, ") and does not carry the '");
    extend_str(&mut out, owner_tag_str());
    extend_str(
        &mut out,
        "' tag. This tool only manages guests it created, so nothing has been changed. Choose a different vmid.",
    );
    assert(out@ =~= refusal_message(vmid, node@, l));
    Err(to_string(out.as_slice()))
}

/* --- commands ------------------------------------------------------------------- */

/// The node the commands are aimed at.
#[derive(Clone, Debug)]
pub struct Proxmox {
    node: String,
}

fn push_arg(v: &mut Vec<String>, s: &str)
    ensures
        final(v)@.len() == old(v)@.len() + 1,
        final(v)@.take(old(v)@.len() as int) == old(v)@,
        final(v)@.last()@ == s@,
{
    let ghost before = v@;
    v.push(s.to_owned());
    assert(v@.take(before.len() as int) =~= before);
}

fn number(n: u32) -> (s: String)
    ensures
        s@ == dec(n as nat),
{
    let mut v: Vec<char> = Vec::new();
    push_dec(&mut v, n as u64);
    to_string(v.as_slice())
}

pub open spec fn flag(b: bool) -> Seq<char> {
    if b {
        "1"@
    } else {
        "0"@
    }
}

/// The `pct create` arguments for a guest.
pub open spec fn spec_create_argv(g: Guest, key: Option<Seq<char>>) -> Seq<Seq<char>> {
    seq![
        "pct"@,
        "create"@,
        dec(g.vmid as nat),
        g.ostemplate@,
        "--hostname"@,
        g.hostname@,
        "--cores"@,
        dec(g.cores as nat),
        "--memory"@,
        dec(g.memory_mb as nat),
        "--swap"@,
        dec(g.swap_mb as nat),
        "--rootfs"@,
        g.rootfs@,
        "--net0"@,
        spec_net0(g),
        "--features"@,
        g.features@,
        "--tags"@,
        spec_tags(g),
        "--onboot"@,
        flag(g.onboot),
        "--unprivileged"@,
        flag(g.unprivileged),
    ] + match key {
        Some(k) => seq!["--ssh-public-keys"@, k],
        None => Seq::empty(),
    }
}

/// The value given to `flag` among options written as flag-value pairs: the
/// one after the first pair whose flag it is.
pub open spec fn option_value(args: Seq<Seq<char>>, flag: Seq<char>) -> Option<Seq<char>>
    decreases args.len(),
{
    if args.len() < 2 {
        None
    } else if args[0] == flag {
        Some(args[1])
    } else {
        option_value(args.skip(2), flag)
    }
}

/// `pct create` is given the vmid and the template, then each option with
/// the guest field it names: `--memory` the memory in MiB, `--swap` the swap,
/// `--cores` the cores, and so on; the key file only when there is one.
pub proof fn lemma_create_options_name_their_fields(g: Guest, key: Option<Seq<char>>)
    ensures
        ({
            let a = spec_create_argv(g, key);
            let opts = a.skip(4);
            &&& a.len() == 24 + if key is Some { 2int } else { 0int }
            &&& a.take(4) == seq!["pct"@, "create"@, dec(g.vmid as nat), g.ostemplate@]
            &&& option_value(opts, "--hostname"@) == Some(g.hostname@)
            &&& option_value(opts, "--cores"@) == Some(dec(g.cores as nat))
            &&& option_value(opts, "--memory"@) == Some(dec(g.memory_mb as nat))
            &&& option_value(opts, "--swap"@) == Some(dec(g.swap_mb as nat))
            &&& option_value(opts, "--rootfs"@) == Some(g.rootfs@)
            &&& option_value(opts, "--net0"@) == Some(spec_net0(g))
            &&& option_value(opts, "--features"@) == Some(g.features@)
            &&& option_value(opts, "--tags"@) == Some(spec_tags(g))
            &&& option_value(opts, "--onboot"@) == Some(if g.onboot { "1"@ } else { "0"@ })
            &&& option_value(opts, "--unprivileged"@) == Some(if g.unprivileged { "1"@ } else { "0"@ })
            &&& option_value(opts, "--ssh-public-keys"@) == key
        }),
{
    reveal_strlit("--hostname");
    reveal_strlit("--cores");
    reveal_strlit("--memory");
    reveal_strlit("--swap");
    reveal_strlit("--rootfs");
    reveal_strlit("--net0");
    reveal_strlit("--features");
    reveal_strlit("--tags");
    reveal_strlit("--onboot");
    reveal_strlit("--unprivileged");
    reveal_strlit("--ssh-public-keys");
    assert("--hostname"@.len() != "--cores"@.len());
    assert("--hostname"@.len() != "--memory"@.len());
    assert("--hostname"@.len() != "--swap"@.len());
    assert("--hostname"@.len() != "--rootfs"@.len());
    assert("--hostname"@.len() != "--net0"@.len());
    assert("--hostname"@[2] != "--features"@[2]);
    assert("--hostname"@.len() != "--tags"@.len());
    assert("--hostname"@.len() != "--onboot"@.len());
    assert("--hostname"@.len() != "--unprivileged"@.len());
    assert("--hostname"@.len() != "--ssh-public-keys"@.len());
    assert("--cores"@.len() != "--memory"@.len());
    assert("--cores"@.len() != "--swap"@.len());
    assert("--cores"@.len() != "--rootfs"@.len());
    assert("--cores"@.len() != "--net0"@.len());
    assert("--cores"@.len() != "--features"@.len());
    assert("--cores"@.len() != "--tags"@.len());
    assert("--cores"@.len() != "--onboot"@.len());
    assert("--cores"@.len() != "--unprivileged"@.len());
    assert("--cores"@.len() != "--ssh-public-keys"@.len());
    assert("--memory"@.len() != "--swap"@.len());
    assert("--memory"@[2] != "--rootfs"@[2]);
    assert("--memory"@.len() != "--net0"@.len());
    assert("--memory"@.len() != "--features"@.len());
    assert("--memory"@.len() != "--tags"@.len());
    assert("--memory"@[2] != "--onboot"@[2]);
    assert("--memory"@.len() != "--unprivileged"@.len());
    assert("--memory"@.len() != "--ssh-public-keys"@.len());
    assert("--swap"@.len() != "--rootfs"@.len());
    assert("--swap"@[2] != "--net0"@[2]);
    assert("--swap"@.len() != "--features"@.len());
    assert("--swap"@[2] != "--tags"@[2]);
    assert("--swap"@.len() != "--onboot"@.len());
    assert("--swap"@.len() != "--unprivileged"@.len());
    assert("--swap"@.len() != "--ssh-public-keys"@.len());
    assert("--rootfs"@.len() != "--net0"@.len());
    assert("--rootfs"@.len() != "--features"@.len());
    assert("--rootfs"@.len() != "--tags"@.len());
    assert("--rootfs"@[2] != "--onboot"@[2]);
    assert("--rootfs"@.len() != "--unprivileged"@.len());
    assert("--rootfs"@.len() != "--ssh-public-keys"@.len());
    assert("--net0"@.len() != "--features"@.len());
    assert("--net0"@[2] != "--tags"@[2]);
    assert("--net0"@.len() != "--onboot"@.len());
    assert("--net0"@.len() != "--unprivileged"@.len());
    assert("--net0"@.len() != "--ssh-public-keys"@.len());
    assert("--features"@.len() != "--tags"@.len());
    assert("--features"@.len() != "--onboot"@.len());
    assert("--features"@.len() != "--unprivileged"@.len());
    assert("--features"@.len() != "--ssh-public-keys"@.len());
    assert("--tags"@.len() != "--onboot"@.len());
    assert("--tags"@.len() != "--unprivileged"@.len());
    assert("--tags"@.len() != "--ssh-public-keys"@.len());
    assert("--onboot"@.len() != "--unprivileged"@.len());
    assert("--onboot"@.len() != "--ssh-public-keys"@.len());
    assert("--unprivileged"@.len() != "--ssh-public-keys"@.len());
    let a = spec_create_argv(g, key);
    let opts = a.skip(4);
    assert(a.take(4) =~= seq!["pct"@, "create"@, dec(g.vmid as nat), g.ostemplate@]);
    let tail = match key {
        Some(k) => seq!["--ssh-public-keys"@, k],
        None => Seq::<Seq<char>>::empty(),
    };
    let r10 = tail;
    let r9 = seq!["--unprivileged"@, flag(g.unprivileged)] + r10;
    let r8 = seq!["--onboot"@, flag(g.onboot)] + r9;
    let r7 = seq!["--tags"@, spec_tags(g)] + r8;
    let r6 = seq!["--features"@, g.features@] + r7;
    let r5 = seq!["--net0"@, spec_net0(g)] + r6;
    let r4 = seq!["--rootfs"@, g.rootfs@] + r5;
    let r3 = seq!["--swap"@, dec(g.swap_mb as nat)] + r4;
    let r2 = seq!["--memory"@, dec(g.memory_mb as nat)] + r3;
    let r1 = seq!["--cores"@, dec(g.cores as nat)] + r2;
    let r0 = seq!["--hostname"@, g.hostname@] + r1;
    assert(opts =~= r0);
    lemma_option_step("--hostname"@, g.hostname@, r1, r0);
    lemma_option_step("--cores"@, dec(g.cores as nat), r2, r1);
    lemma_option_step("--memory"@, dec(g.memory_mb as nat), r3, r2);
    lemma_option_step("--swap"@, dec(g.swap_mb as nat), r4, r3);
    lemma_option_step("--rootfs"@, g.rootfs@, r5, r4);
    lemma_option_step("--net0"@, spec_net0(g), r6, r5);
    lemma_option_step("--features"@, g.features@, r7, r6);
    lemma_option_step("--tags"@, spec_tags(g), r8, r7);
    lemma_option_step("--onboot"@, flag(g.onboot), r9, r8);
    lemma_option_step("--unprivileged"@, flag(g.unprivileged), r10, r9);
    match key {
        Some(k) => {
            assert(r10 =~= seq!["--ssh-public-keys"@, k] + Seq::<Seq<char>>::empty());
            lemma_option_step("--ssh-public-keys"@, k, Seq::empty(), r10);


            assert(option_value(Seq::<Seq<char>>::empty(), "--ssh-public-keys"@) is None);
        },
        None => {
            assert(option_value(r10, "--ssh-public-keys"@) is None);
        },
    }
}

proof fn lemma_option_step(f: Seq<char>, v: Seq<char>, rest: Seq<Seq<char>>, whole: Seq<Seq<char>>)
    requires
        whole == seq![f, v] + rest,
    ensures
        forall|flag: Seq<char>|
            #[trigger] option_value(whole, flag) == if f == flag {
                Some(v)
            } else {
                option_value(rest, flag)
            },
{
    assert(whole.skip(2) =~= rest);
}

impl Proxmox {
    pub closed spec fn node_spec(self) -> Seq<char> {
        self.node@
    }

    pub fn new(node: &str) -> (p: Proxmox)
        ensures
            p.node_spec() == node@,
    {
        Proxmox { node: node.to_owned() }
    }

    pub fn node(&self) -> (n: &str)
        ensures
            n@ == self.node_spec(),
    {
        self.node.as_str()
    }

    /// `pvesh get /nodes/<node>/lxc --output-format json`.
    pub fn list_argv(&self) -> (v: Vec<String>)
        ensures
            string_views(v@) == seq![
                "pvesh"@,
                "get"@,
                "/nodes/"@ + self.node_spec() + "/lxc"@,
                "--output-format"@,
                "json"@,
            ],
    {
        let mut v: Vec<String> = Vec::new();
        push_arg(&mut v, "pvesh");
        push_arg(&mut v, "get");
        let mut p: Vec<char> = Vec::new();
        extend_str(&mut p, "/nodes/");
        extend_str(&mut p, self.node.as_str());
        extend_str(&mut p, "/lxc");
        let path = to_string(p.as_slice());
        push_arg(&mut v, path.as_str());
        push_arg(&mut v, "--output-format");
        push_arg(&mut v, "json");
        assert(string_views(v@) =~= seq![
            "pvesh"@,
            "get"@,
            "/nodes/"@ + self.node_spec() + "/lxc"@,
            "--output-format"@,
            "json"@,
        ]);
        v
    }

    /// The `pct create` argv for a guest.
    pub fn create_argv(&self, g: &Guest, ssh_pubkey_path: Option<&str>) -> (a: Vec<String>)
        ensures
            string_views(a@) == spec_create_argv(
                *g,
                match ssh_pubkey_path {
                    Some(k) => Some(k@),
                    None => None,
                },
            ),
    {
        let mut a: Vec<String> = Vec::new();
        push_arg(&mut a, "pct");
        push_arg(&mut a, "create");
        push_arg(&mut a, number(g.vmid).as_str());
        push_arg(&mut a, g.ostemplate.as_str());
        push_arg(&mut a, "--hostname");
        push_arg(&mut a, g.hostname.as_str());
        push_arg(&mut a, "--cores");
        push_arg(&mut a, number(g.cores).as_str());
        push_arg(&mut a, "--memory");
        push_arg(&mut a, number(g.memory_mb).as_str());
        push_arg(&mut a, "--swap");
        push_arg(&mut a, number(g.swap_mb).as_str());
        push_arg(&mut a, "--rootfs");
        push_arg(&mut a, g.rootfs.as_str());
        push_arg(&mut a, "--net0");
        push_arg(&mut a, g.net0().as_str());
        push_arg(&mut a, "--features");
        push_arg(&mut a, g.features.as_str());
        push_arg(&mut a, "--tags");
        push_arg(&mut a, g.tags().as_str());
        push_arg(&mut a, "--onboot");
        push_arg(
            &mut a,
            if g.onboot {
                "1"
            } else {
                "0"
            },
        );
        push_arg(&mut a, "--unprivileged");
        push_arg(
            &mut a,
            if g.unprivileged {
                "1"
            } else {
                "0"
            },
        );
        match ssh_pubkey_path {
            Some(key) => {
                push_arg(&mut a, "--ssh-public-keys");
                push_arg(&mut a, key);
            },
            None => {},
        }
        assert(string_views(a@) =~= spec_create_argv(
            *g,
            match ssh_pubkey_path {
                Some(k) => Some(k@),
                None => None,
            },
        ));
        a
    }
}

/// `pct start <vmid>`.
pub fn start_argv(vmid: u32) -> (v: Vec<String>)
    ensures
        string_views(v@) == seq!["pct"@, "start"@, dec(vmid as nat)],
{
    let mut v: Vec<String> = Vec::new();
    push_arg(&mut v, "pct");
    push_arg(&mut v, "start");
    push_arg(&mut v, number(vmid).as_str());
    assert(string_views(v@) =~= seq!["pct"@, "start"@, dec(vmid as nat)]);
    v
}

/// `pct exec <vmid> -- bash -lc <command>`: reaches the guest through the
/// hypervisor, so it works before the guest has an address.
pub fn exec_argv(vmid: u32, command: &str) -> (v: Vec<String>)
    ensures
        string_views(v@) == seq!["pct"@, "exec"@, dec(vmid as nat), "--"@, "bash"@, "-lc"@, command@],
{
    let mut v: Vec<String> = Vec::new();
    push_arg(&mut v, "pct");
    push_arg(&mut v, "exec");
    push_arg(&mut v, number(vmid).as_str());
    push_arg(&mut v, "--");
    push_arg(&mut v, "bash");
    push_arg(&mut v, "-lc");
    push_arg(&mut v, command);
    assert(string_views(v@) =~= seq![
        "pct"@,
        "exec"@,
        dec(vmid as nat),
        "--"@,
        "bash"@,
        "-lc"@,
        command@,
    ]);
    v
}

/// `pct push <vmid> <node_path> <guest_path>`.
pub fn push_argv(vmid: u32, node_path: &str, guest_path: &str) -> (v: Vec<String>)
    ensures
        string_views(v@) == seq!["pct"@, "push"@, dec(vmid as nat), node_path@, guest_path@],
{
    let mut v: Vec<String> = Vec::new();
    push_arg(&mut v, "pct");
    push_arg(&mut v, "push");
    push_arg(&mut v, number(vmid).as_str());
    push_arg(&mut v, node_path);
    push_arg(&mut v, guest_path);
    assert(string_views(v@) =~= seq!["pct"@, "push"@, dec(vmid as nat), node_path@, guest_path@]);
    v
}

/* --- what the answers mean ------------------------------------------------------- */

/// `pveversion` must succeed before anything else is tried; its output,
/// trimmed, is the node's version.
pub fn preflight_verdict(out: &Output) -> (r: Result<String, String>)
    ensures
        out.status == 0 ==> r is Ok && r->Ok_0@ == trim(out.stdout@),
        out.status != 0 ==> r is Err && r->Err_0@
            == "`pveversion` failed on the node — is this a Proxmox host and does the SSH user have permission? ("@
            + trim(out.stderr@) + ")"@,
{
    if out.succeeded() {
        Ok(to_string(trimmed(chars_of(out.stdout.as_str()).as_slice()).as_slice()))
    } else {
        let mut m: Vec<char> = Vec::new();
        extend_str(
            &mut m,
            "`pveversion` failed on the node — is this a Proxmox host and does the SSH user have permission? (",
        );
        let e = trimmed(chars_of(out.stderr.as_str()).as_slice());
        crate::text::extend_chars(&mut m, e.as_slice());
        extend_str(&mut m, ")");
        Err(to_string(m.as_slice()))
    }
}

/// `prefix` followed by the trimmed texts.
fn message(prefix: &Vec<char>, a: &str, b: Option<&str>) -> (m: String)
    ensures
        m@ == prefix@ + trim(a@) + match b {
            Some(x) => trim(x@),
            None => Seq::<char>::empty(),
        },
{
    let mut out: Vec<char> = prefix.clone();
    crate::text::extend_chars(&mut out, trimmed(chars_of(a).as_slice()).as_slice());
    match b {
        Some(x) => {
            crate::text::extend_chars(&mut out, trimmed(chars_of(x).as_slice()).as_slice());
        },
        None => {},
    }
    to_string(out.as_slice())
}

/// Listing the containers must succeed.
pub fn listing_verdict(out: &Output) -> (r: Result<(), String>)
    ensures
        out.status == 0 ==> r is Ok,
        out.status != 0 ==> r is Err && r->Err_0@ == "listing containers failed: "@ + trim(
            out.stderr@,
        ),
{
    if out.succeeded() {
        Ok(())
    } else {
        let p = chars_of("listing containers failed: ");
        Err(message(&p, out.stderr.as_str(), None))
    }
}

/// `pct create` must succeed; its output is the explanation when it does not.
pub fn create_verdict(vmid: u32, out: &Output) -> (r: Result<(), String>)
    ensures
        out.status == 0 ==> r is Ok,
        out.status != 0 ==> r is Err && r->Err_0@ == "creating container "@ + dec(vmid as nat)
            + " failed: "@ + trim(out.stdout@) + trim(out.stderr@),
{
    if out.succeeded() {
        Ok(())
    } else {
        let mut p: Vec<char> = Vec::new();
        extend_str(&mut p, "creating container ");
        push_dec(&mut p, vmid as u64);
        extend_str(&mut p, " failed: ");
        Err(message(&p, out.stdout.as_str(), Some(out.stderr.as_str())))
    }
}

/// `pct start` must succeed.
pub fn start_verdict(vmid: u32, out: &Output) -> (r: Result<(), String>)
    ensures
        out.status == 0 ==> r is Ok,
        out.status != 0 ==> r is Err && r->Err_0@ == "starting container "@ + dec(vmid as nat)
            + " failed: "@ + trim(out.stderr@),
{
    if out.succeeded() {
        Ok(())
    } else {
        let mut p: Vec<char> = Vec::new();
        extend_str(&mut p, "starting container ");
        push_dec(&mut p, vmid as u64);
        extend_str(&mut p, " failed: ");
        Err(message(&p, out.stderr.as_str(), None))
    }
}

/// A command inside the container that must succeed: its output when it
/// does, and what it said when it did not.
pub fn exec_checked_verdict(vmid: u32, command: &str, out: &Output) -> (r: Result<String, String>)
    ensures
        out.status == 0 ==> r is Ok && r->Ok_0@ == out.stdout@,
        out.status != 0 ==> r is Err && r->Err_0@ == "in container "@ + dec(vmid as nat) + ", `"@
            + command@ + "` exited "@ + dec_int(out.status as int) + ": "@ + trim(out.stdout@)
            + trim(out.stderr@),
{
    if out.succeeded() {
        Ok(out.stdout.clone())
    } else {
        let mut p: Vec<char> = Vec::new();
        extend_str(&mut p, "in container ");
        push_dec(&mut p, vmid as u64);
        extend_str(&mut p, ", `");
        extend_str(&mut p, command);
        extend_str(&mut p, "` exited ");
        push_dec_i64(&mut p, out.status as i64);
        extend_str(&mut p, ": ");
        Err(message(&p, out.stdout.as_str(), Some(out.stderr.as_str())))
    }
}

/// The directory a pushed file lands in, when it names one that must exist
/// first: everything before the last `/`, if that is not empty.
pub open spec fn spec_push_dir(guest_path: Seq<char>) -> Option<Seq<char>> {
    let i = rfind_char(guest_path, '/');
    if i <= 0 {
        None
    } else {
        Some(guest_path.take(i))
    }
}

pub fn push_dir(guest_path: &str) -> (r: Option<String>)
    ensures
        match r {
            Some(d) => spec_push_dir(guest_path@) == Some(d@),
            None => spec_push_dir(guest_path@) is None,
        },
{
    let v = chars_of(guest_path);
    match rfind_char_vec(v.as_slice(), '/') {
        Some(i) => if i == 0 {
            None
        } else {
            let d = slice_range(v.as_slice(), 0, i);
            assert(d@ =~= v@.take(i as int));
            Some(to_string(d.as_slice()))
        },
        None => None,
    }
}

/// `mkdir -p <dir>`.
pub fn mkdir_command(dir: &str) -> (c: String)
    ensures
        c@ == "mkdir -p "@ + dir@,
{
    let mut v: Vec<char> = Vec::new();
    extend_str(&mut v, "mkdir -p ");
    extend_str(&mut v, dir);
    to_string(v.as_slice())
}

/// `pct push` must succeed.
pub fn push_verdict(vmid: u32, node_path: &str, guest_path: &str, out: &Output) -> (r: Result<(), String>)
    ensures
        out.status == 0 ==> r is Ok,
        out.status != 0 ==> r is Err && r->Err_0@ == "pushing "@ + node_path@ + " into container "@
            + dec(vmid as nat) + " at "@ + guest_path@ + " failed: "@ + trim(out.stderr@),
{
    if out.succeeded() {
        Ok(())
    } else {
        let mut p: Vec<char> = Vec::new();
        extend_str(&mut p, "pushing ");
        extend_str(&mut p, node_path);
        extend_str(&mut p, " into container ");
        push_dec(&mut p, vmid as u64);
        extend_str(&mut p, " at ");
        extend_str(&mut p, guest_path);
        extend_str(&mut p, " failed: ");
        Err(message(&p, out.stderr.as_str(), None))
    }
}

/// Whether `ip -4 -json addr show` gave anything to read an address from.
pub fn address_answer_usable(out: &Output) -> (b: bool)
    ensures
        b == (out.status == 0 && trim(out.stdout@).len() > 0),
{
    out.succeeded() && trimmed(chars_of(out.stdout.as_str()).as_slice()).len() > 0
}

/* --- the guest's address ------------------------------------------------------------ */

/// A JSON document as a command printed it. Numbers keep their text, and an
/// object's members keep the order they were read in.
#[derive(Debug)]
pub enum Json {
    Null,
    Bool(bool),
    Number(String),
    Str(String),
    Array(Vec<Json>),
    Object(Vec<(String, Json)>),
}

/// The first member named `key`.
pub open spec fn spec_field(entries: Seq<(String, Json)>, key: Seq<char>) -> Option<Json>
    decreases entries.len(),
{
    if entries.len() == 0 {
        None
    } else if entries[0].0@ == key {
        Some(entries[0].1)
    } else {
        spec_field(entries.drop_first(), key)
    }
}

/// An object's member named `key`; nothing for anything but an object.
pub open spec fn spec_member(j: Json, key: Seq<char>) -> Option<Json> {
    match j {
        Json::Object(entries) => spec_field(entries@, key),
        _ => None,
    }
}

/// The address an `addr_info` entry offers as a lease: its `local` text,
/// when its scope (global unless stated as text) is global and it is not
/// the loopback address.
pub open spec fn lease_of(a: Json) -> Option<Seq<char>> {
    match spec_member(a, "local"@) {
        Some(Json::Str(local)) => {
            let scope = match spec_member(a, "scope"@) {
                Some(Json::Str(sc)) => sc@,
                _ => "global"@,
            };
            if scope == "global"@ && local@ != "127.0.0.1"@ {
                Some(local@)
            } else {
                None
            }
        },
        _ => None,
    }
}

/// The first lease among an interface's addresses.
pub open spec fn first_lease(addrs: Seq<Json>) -> Option<Seq<char>>
    decreases addrs.len(),
{
    if addrs.len() == 0 {
        None
    } else {
        match lease_of(addrs[0]) {
            Some(l) => Some(l),
            None => first_lease(addrs.drop_first()),
        }
    }
}

/// An interface's `addr_info` entries; none unless it holds an array.
pub open spec fn addr_info(iface: Json) -> Seq<Json> {
    match spec_member(iface, "addr_info"@) {
        Some(Json::Array(v)) => v@,
        _ => Seq::empty(),
    }
}

/// The first lease over the interfaces in order.
pub open spec fn first_lease_in(ifaces: Seq<Json>) -> Option<Seq<char>>
    decreases ifaces.len(),
{
    if ifaces.len() == 0 {
        None
    } else {
        match first_lease(addr_info(ifaces[0])) {
            Some(l) => Some(l),
            None => first_lease_in(ifaces.drop_first()),
        }
    }
}

/// The guest's leased address in the document `ip -4 -json addr show`
/// prints: an array of interfaces.
pub open spec fn spec_lease_address(doc: Json) -> Option<Seq<char>> {
    match doc {
        Json::Array(ifaces) => first_lease_in(ifaces@),
        _ => None,
    }
}

/// A JSON value as `serde_json` reads it; opaque here, and only converted.
#[verifier::external_type_specification]
#[verifier::external_body]
pub struct ExJsonValue(serde_json::Value);

/// What `serde_json::from_str::<serde_json::Value>` reads from `text`, in the
/// library's form, or `None` when the text is not JSON.
pub uninterp spec fn json_of(text: Seq<char>) -> Option<Json>;

/// `serde_json::from_str` into a `serde_json::Value`, converted one for one
/// by `json_doc`. Trusted to depend on the text alone; what it reads is named
/// by `json_of` and not stated further.
#[verifier::external_body]
fn parse_json(text: &str) -> (r: Option<Json>)
    ensures
        r == json_of(text@),
{
    serde_json::from_str::<serde_json::Value>(text).ok().map(json_doc)
}

/// A `serde_json::Value` in the library's form, variant for variant: a
/// number keeps its text, an object its members in the order the value
/// holds them. Used only by `parse_json`, whose named result covers it.
#[verifier::external_body]
fn json_doc(v: serde_json::Value) -> Json {
    match v {
        serde_json::Value::Null => Json::Null,
        serde_json::Value::Bool(b) => Json::Bool(b),
        serde_json::Value::Number(n) => Json::Number(n.to_string()),
        serde_json::Value::String(t) => Json::Str(t),
        serde_json::Value::Array(a) => Json::Array(a.into_iter().map(json_doc).collect()),
        serde_json::Value::Object(m) => Json::Object(m.into_iter().map(|(k, x)| (k, json_doc(x))).collect()),
    }
}

fn member<'a>(j: &'a Json, key: &str) -> (r: Option<&'a Json>)
    ensures
        match r {
            Some(x) => spec_member(*j, key@) == Some(*x),
            None => spec_member(*j, key@) is None,
        },
{
    match j {
        Json::Object(entries) => {
            let mut i: usize = 0;
            assert(entries@.skip(0) =~= entries@);
            while i < entries.len()
                invariant
                    i <= entries@.len(),
                    spec_member(*j, key@) == spec_field(entries@, key@),
                    spec_field(entries@, key@) == spec_field(entries@.skip(i as int), key@),
                decreases entries@.len() - i,
            {
                assert(entries@.skip(i as int).drop_first() =~= entries@.skip(i + 1));
                assert(entries@.skip(i as int)[0] == entries@[i as int]);
                let name = chars_of(entries[i].0.as_str());
                if chars_eq_str(name.as_slice(), key) {
                    return Some(&entries[i].1);
                }
                i = i + 1;
            }
            None
        },
        _ => None,
    }
}

fn lease_in_entry(a: &Json) -> (r: Option<String>)
    ensures
        match r {
            Some(x) => lease_of(*a) == Some(x@),
            None => lease_of(*a) is None,
        },
{
    let local = match member(a, "local") {
        Some(Json::Str(l)) => l,
        _ => {
            return None;
        },
    };
    let global = match member(a, "scope") {
        Some(Json::Str(sc)) => chars_eq_str(chars_of(sc.as_str()).as_slice(), "global"),
        _ => {
            proof {
                reveal_strlit("global");
            }
            true
        },
    };
    if global && !chars_eq_str(chars_of(local.as_str()).as_slice(), "127.0.0.1") {
        Some(local.clone())
    } else {
        None
    }
}

/// The guest's leased address: the first global IPv4 that is not loopback in
/// what `ip -4 -json addr show` printed, read as JSON.
pub fn lease_address(doc: &Json) -> (r: Option<String>)
    ensures
        match r {
            Some(x) => spec_lease_address(*doc) == Some(x@),
            None => spec_lease_address(*doc) is None,
        },
{
    let ifaces = match doc {
        Json::Array(v) => v,
        _ => {
            return None;
        },
    };
    let mut i: usize = 0;
    assert(ifaces@.skip(0) =~= ifaces@);
    while i < ifaces.len()
        invariant
            i <= ifaces@.len(),
            spec_lease_address(*doc) == first_lease_in(ifaces@),
            first_lease_in(ifaces@) == first_lease_in(ifaces@.skip(i as int)),
        decreases ifaces@.len() - i,
    {
        assert(ifaces@.skip(i as int).drop_first() =~= ifaces@.skip(i + 1));
        assert(ifaces@.skip(i as int)[0] == ifaces@[i as int]);
        if let Some(Json::Array(addrs)) = member(&ifaces[i], "addr_info") {
            assert(addr_info(ifaces@[i as int]) == addrs@);
            let mut k: usize = 0;
            assert(addrs@.skip(0) =~= addrs@);
            while k < addrs.len()
                invariant
                    k <= addrs@.len(),
                    i < ifaces@.len(),
                    addr_info(ifaces@[i as int]) == addrs@,
                    ifaces@.skip(i as int)[0] == ifaces@[i as int],
                    spec_lease_address(*doc) == first_lease_in(ifaces@),
                    first_lease_in(ifaces@) == first_lease_in(ifaces@.skip(i as int)),
                    first_lease(addrs@) == first_lease(addrs@.skip(k as int)),
                decreases addrs@.len() - k,
            {
                assert(addrs@.skip(k as int).drop_first() =~= addrs@.skip(k + 1));
                assert(addrs@.skip(k as int)[0] == addrs@[k as int]);
                if let Some(l) = lease_in_entry(&addrs[k]) {
                    return Some(l);
                }
                k = k + 1;
            }
            assert(addrs@.skip(k as int) =~= Seq::<Json>::empty());
        }
        i = i + 1;
    }
    assert(ifaces@.skip(i as int) =~= Seq::<Json>::empty());
    None
}

/// The guest's leased address in `ip -4 -json addr show` output: the text
/// read as JSON, then its first global IPv4 that is not loopback; `None`
/// when the text is not JSON or offers no such address.
pub fn parse_ipv4_from_ip_json(json: &str) -> (r: Option<String>)
    ensures
        (match r {
            Some(s) => Some(s@),
            None => None,
        }) == (match json_of(json@) {
            Some(d) => spec_lease_address(d),
            None => None,
        }),
{
    match parse_json(json) {
        Some(doc) => lease_address(&doc),
        None => None,
    }
}

/* --- what a run does --------------------------------------------------------------- */

pub open spec fn spec_is_running(l: Lxc) -> bool {
    match l.status {
        Some(s) => s@ == "running"@,
        None => false,
    }
}

/// A guest is created only when nothing holds its VMID yet.
pub open spec fn spec_needs_create(existing: Option<Lxc>) -> bool {
    existing is None
}

/// A guest is started only when it is not already running.
pub open spec fn spec_needs_start(current: Option<Lxc>) -> bool {
    match current {
        Some(l) => !spec_is_running(l),
        None => true,
    }
}

pub fn needs_create(existing: &Option<Lxc>) -> (b: bool)
    ensures
        b == spec_needs_create(*existing),
{
    existing.is_none()
}

/// Starting a running container is not worth failing over, and not worth
/// doing.
pub fn needs_start(current: &Option<Lxc>) -> (b: bool)
    ensures
        b == spec_needs_start(*current),
{
    match current {
        Some(l) => !l.is_running(),
        None => true,
    }
}

/// Run again against a guest it made and left running, provisioning
/// neither creates nor starts anything.
pub proof fn lemma_second_run_creates_nothing(l: Lxc)
    requires
        spec_is_running(l),
    ensures
        !spec_needs_create(Some(l)),
        !spec_needs_start(Some(l)),
{
}

} // verus!
