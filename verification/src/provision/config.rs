//! Provisioning configuration.
//!
//! Everything non-secret lives in a file that is committed; the file is read
//! by the binary, and what it says is checked and turned into Proxmox's own
//! vocabulary here.

use vstd::prelude::*;
use crate::text::{
    lemma_join_cons, hex_upper_char,
    chars_of, contains_sub, dec, extend_str, hex_upper2, is_hex, join, join_strings,
    push_dec, push_hex_upper2, split, split_chars, str_contains, string_views, to_string, trim,
    trimmed, views,
};
use crate::netid::{debug_str, str_debug};

verus! {

broadcast use vstd::string::group_string_axioms;

/// The tag applied to every guest this tool creates, and the ownership
/// marker: the tool refuses to modify an existing guest that lacks it.
pub const OWNER_TAG: &'static str = "speedtest-provisioned";

/// `OWNER_TAG` as characters.
pub open spec fn owner_tag() -> Seq<char> {
    "speedtest-provisioned"@
}

/// `OWNER_TAG`, with its contents known to the verifier.
pub fn owner_tag_str() -> (s: &'static str)
    ensures
        s@ == owner_tag(),
{
    "speedtest-provisioned"
}

/// How to reach the Proxmox node.
#[derive(Clone, Debug)]
pub struct Proxmox {
    /// Address of the node to SSH to.
    pub ssh_host: String,
    /// Needs to be able to run `pct` and `pvesh`, so in practice root.
    pub ssh_user: String,
    /// Optional explicit identity file.
    pub ssh_identity: Option<String>,
    /// Node name as Proxmox knows it, which is not necessarily the address.
    pub node: String,
}

/// The guest to create.
#[derive(Clone, Debug)]
pub struct Guest {
    pub vmid: u32,
    pub hostname: String,
    /// Container template, as `storage:vztmpl/filename`.
    pub ostemplate: String,
    pub cores: u32,
    pub memory_mb: u32,
    pub swap_mb: u32,
    /// Root filesystem, as `storage:size-in-gib`.
    pub rootfs: String,
    pub bridge: String,
    pub vlan_tag: Option<u32>,
    /// Pinned MAC address; derived from the VMID when unset.
    pub mac: Option<String>,
    pub unprivileged: bool,
    /// `nesting=1` is required for Docker inside an unprivileged container.
    pub features: String,
    pub onboot: bool,
    /// Extra tags alongside the ownership tag.
    pub extra_tags: Vec<String>,
    /// Which measurement profile the deployed service runs.
    pub measurement_profile: String,
    /// What the deployed service calls itself in the browser.
    pub site_name: Option<String>,
    /// Names clients in the history from their PTR records.
    pub reverse_dns: bool,
    /// `host:port` for the resolver to ask.
    pub dns_resolver: Option<String>,
    /// Public key installed for root on the guest.
    pub ssh_authorized_key: String,
}

/// The whole provisioning configuration.
#[derive(Clone, Debug)]
pub struct Config {
    pub proxmox: Proxmox,
    pub guest: Guest,
}

pub fn default_ssh_user() -> (s: String)
    ensures
        s@ == "root"@,
{
    "root".to_owned()
}

pub fn default_true() -> (b: bool)
    ensures
        b,
{
    true
}

pub fn default_features() -> (s: String)
    ensures
        s@ == "nesting=1,keyctl=1"@,
{
    "nesting=1,keyctl=1".to_owned()
}

pub fn default_measurement_profile() -> (s: String)
    ensures
        s@ == "lan-1g"@,
{
    "lan-1g".to_owned()
}

pub fn default_authorized_key() -> (s: String)
    ensures
        s@ == "~/.ssh/id_ed25519.pub"@,
{
    "~/.ssh/id_ed25519.pub".to_owned()
}

/* --- the guest in Proxmox's terms ------------------------------------------- */

/// The `k`th byte of the VMID, most significant first.
pub open spec fn vmid_byte(vmid: u32, k: int) -> u8 {
    if k == 0 {
        (vmid / 16777216) as u8
    } else if k == 1 {
        ((vmid / 65536) % 256) as u8
    } else if k == 2 {
        ((vmid / 256) % 256) as u8
    } else {
        (vmid % 256) as u8
    }
}

/// `02:5E:` and the VMID's four bytes in upper-case hex. `02` marks the
/// address locally administered and unicast.
pub open spec fn spec_default_mac(vmid: u32) -> Seq<char> {
    "02:5E:"@ + hex_upper2(vmid_byte(vmid, 0)) + ":"@ + hex_upper2(vmid_byte(vmid, 1)) + ":"@
        + hex_upper2(vmid_byte(vmid, 2)) + ":"@ + hex_upper2(vmid_byte(vmid, 3))
}

pub open spec fn spec_effective_mac(g: Guest) -> Seq<char> {
    match g.mac {
        Some(m) => m@,
        None => spec_default_mac(g.vmid),
    }
}

/// The `net0` value: DHCP on the configured bridge with the pinned MAC, and
/// the VLAN tag when there is one.
pub open spec fn spec_net0(g: Guest) -> Seq<char> {
    "name=eth0,bridge="@ + g.bridge@ + ",hwaddr="@ + spec_effective_mac(g) + ",ip=dhcp"@
        + match g.vlan_tag {
        Some(t) => ",tag="@ + dec(t as nat),
        None => Seq::empty(),
    }
}

/// Tags as Proxmox stores them: semicolon-separated, ownership tag first.
pub open spec fn spec_tags(g: Guest) -> Seq<char> {
    join(seq![owner_tag()] + string_views(g.extra_tags@), ";"@)
}

impl Guest {
    /// A stable, locally administered MAC derived from the VMID.
    pub fn default_mac(vmid: u32) -> (s: String)
        ensures
            s@ == spec_default_mac(vmid),
    {
        let mut out: Vec<char> = Vec::new();
        extend_str(&mut out, "02:5E:");
        push_hex_upper2(&mut out, (vmid / 16777216) as u8);
        extend_str(&mut out, ":");
        push_hex_upper2(&mut out, ((vmid / 65536) % 256) as u8);
        extend_str(&mut out, ":");
        push_hex_upper2(&mut out, ((vmid / 256) % 256) as u8);
        extend_str(&mut out, ":");
        push_hex_upper2(&mut out, (vmid % 256) as u8);
        to_string(out.as_slice())
    }

    /// The configured MAC, or the derived one.
    pub fn effective_mac(&self) -> (s: String)
        ensures
            s@ == spec_effective_mac(*self),
    {
        match &self.mac {
            Some(m) => m.clone(),
            None => Self::default_mac(self.vmid),
        }
    }

    /// The `net0` value Proxmox expects, as a comma-separated parameter list.
    pub fn net0(&self) -> (s: String)
        ensures
            s@ == spec_net0(*self),
    {
        let mut out: Vec<char> = Vec::new();
        extend_str(&mut out, "name=eth0,bridge=");
        extend_str(&mut out, self.bridge.as_str());
        extend_str(&mut out, ",hwaddr=");
        extend_str(&mut out, self.effective_mac().as_str());
        extend_str(&mut out, ",ip=dhcp");
        match self.vlan_tag {
            Some(t) => {
                extend_str(&mut out, ",tag=");
                push_dec(&mut out, t as u64);
            },
            None => {},
        }
        assert(out@ =~= spec_net0(*self));
        to_string(out.as_slice())
    }

    /// Tags as Proxmox stores them: semicolon-separated, ownership tag first.
    pub fn tags(&self) -> (s: String)
        ensures
            s@ == spec_tags(*self),
    {
        let mut tags: Vec<String> = Vec::new();
        tags.push(owner_tag_str().to_owned());
        let mut i: usize = 0;
        while i < self.extra_tags.len()
            invariant
                i <= self.extra_tags@.len(),
                string_views(tags@) == seq![owner_tag()] + string_views(self.extra_tags@).take(
                    i as int,
                ),
            decreases self.extra_tags.len() - i,
        {
            let ghost before = tags@;
            let t = self.extra_tags[i].clone();
            tags.push(t);
            assert(string_views(tags@) =~= string_views(before).push(t@));
            assert(string_views(tags@) =~= seq![owner_tag()] + string_views(
                self.extra_tags@,
            ).take(i + 1));
            i = i + 1;
        }
        assert(string_views(self.extra_tags@).take(self.extra_tags@.len() as int)
            =~= string_views(self.extra_tags@));
        join_strings(tags.as_slice(), ";")
    }
}

/* --- validation ------------------------------------------------------------- */

/// Two hex digits.
pub open spec fn hex_octet(t: Seq<char>) -> bool {
    t.len() == 2 && is_hex(t[0]) && is_hex(t[1])
}

/// Six colon-separated hex octets.
pub open spec fn mac_ok(m: Seq<char>) -> bool {
    split(m, ':').len() == 6 && forall|k: int|
        0 <= k < split(m, ':').len() ==> hex_octet(#[trigger] split(m, ':')[k])
}

/// A character a compose `env_file` cannot carry in a value: a line break
/// would start another variable and `#` can start a comment.
pub open spec fn env_breaker(c: char) -> bool {
    c == '\n' || c == '\r' || c == '#'
}

/// Index of the first character `env_breaker` refuses, or -1.
pub open spec fn first_env_breaker(s: Seq<char>) -> int
    decreases s.len(),
{
    if s.len() == 0 {
        -1
    } else if env_breaker(s[0]) {
        0
    } else {
        let r = first_env_breaker(s.drop_first());
        if r < 0 {
            -1
        } else {
            r + 1
        }
    }
}

/// How `{:?}` writes one of the characters `env_breaker` refuses.
pub open spec fn breaker_debug(c: char) -> Seq<char> {
    if c == '\n' {
        "'\\n'"@
    } else if c == '\r' {
        "'\\r'"@
    } else {
        "'#'"@
    }
}

/// The first thing wrong with a configuration, as the message naming it.
pub open spec fn spec_config_problem(c: Config) -> Option<Seq<char>> {
    let g = c.guest;
    if g.vmid < 100 {
        Some("vmid "@ + dec(g.vmid as nat) + " is below Proxmox's minimum of 100"@)
    } else if g.mac is Some && !mac_ok(g.mac->0@) {
        Some("mac "@ + debug_str(g.mac->0@) + " is not six colon-separated hex octets"@)
    } else if !contains_sub(g.ostemplate@, ":vztmpl/"@) {
        Some(
            "ostemplate "@ + debug_str(g.ostemplate@)
                + " should look like 'storage:vztmpl/filename'"@,
        )
    } else if g.site_name is Some && trim(g.site_name->0@).len() == 0 {
        Some("site_name is set but blank — remove it to keep the default"@)
    } else if g.site_name is Some && first_env_breaker(g.site_name->0@) >= 0 {
        Some(
            "site_name "@ + debug_str(g.site_name->0@) + " contains "@ + breaker_debug(
                g.site_name->0@[first_env_breaker(g.site_name->0@)],
            ) + ", which a compose env_file cannot carry"@,
        )
    } else if g.unprivileged && !contains_sub(g.features@, "nesting=1"@) {
        Some(
            "features "@ + debug_str(g.features@)
                + " lacks nesting=1, which Docker needs in an unprivileged container"@,
        )
    } else {
        None
    }
}

fn is_hex_digit(c: char) -> (b: bool)
    ensures
        b == is_hex(c),
{
    crate::text::is_hex_char(c)
}

/// Whether `m` is six colon-separated hex octets.
fn check_mac(m: &str) -> (b: bool)
    ensures
        b == mac_ok(m@),
{
    let parts = split_chars(chars_of(m).as_slice(), ':');
    if parts.len() != 6 {
        return false;
    }
    let mut i: usize = 0;
    while i < parts.len()
        invariant
            i <= parts@.len(),
            views(parts@) == split(m@, ':'),
            forall|k: int| 0 <= k < i ==> hex_octet(#[trigger] split(m@, ':')[k]),
        decreases parts.len() - i,
    {
        assert(split(m@, ':')[i as int] == parts@[i as int]@);
        let p = &parts[i];
        if p.len() != 2 || !is_hex_digit(p[0]) || !is_hex_digit(p[1]) {
            return false;
        }
        i = i + 1;
    }
    true
}

/// Index of the first character `env_breaker` refuses.
fn find_env_breaker(v: &[char]) -> (r: Option<usize>)
    ensures
        match r {
            Some(i) => i < v@.len() && first_env_breaker(v@) == i,
            None => first_env_breaker(v@) < 0,
        },
{
    let mut i: usize = 0;
    assert(v@.skip(0) =~= v@);
    while i < v.len()
        invariant
            i <= v@.len(),
            first_env_breaker(v@) == if first_env_breaker(v@.skip(i as int)) < 0 {
                -1
            } else {
                first_env_breaker(v@.skip(i as int)) + i
            },
        decreases v.len() - i,
    {
        if v[i] == '\n' || v[i] == '\r' || v[i] == '#' {
            return Some(i);
        }
        assert(v@.skip(i as int).drop_first() =~= v@.skip(i + 1));
        i = i + 1;
    }
    None
}

fn push_debug(out: &mut Vec<char>, s: &str)
    ensures
        final(out)@ == old(out)@ + debug_str(s@),
{
    let d = str_debug(s);
    extend_str(out, d.as_str());
}

impl Config {
    /// Refuses a configuration that would produce a broken guest, naming
    /// the first problem found.
    pub fn validate(&self) -> (r: Result<(), String>)
        ensures
            match spec_config_problem(*self) {
                Some(m) => r is Err && r->Err_0@ == m,
                None => r is Ok,
            },
    {
        let g = &self.guest;
        let mut out: Vec<char> = Vec::new();
        if g.vmid < 100 {
            extend_str(&mut out, "vmid ");
            push_dec(&mut out, g.vmid as u64);
            extend_str(&mut out, " is below Proxmox's minimum of 100");
            return Err(to_string(out.as_slice()));
        }
        match &g.mac {
            Some(mac) => {
                if !check_mac(mac.as_str()) {
                    extend_str(&mut out, "mac ");
                    push_debug(&mut out, mac.as_str());
                    extend_str(&mut out, " is not six colon-separated hex octets");
                    return Err(to_string(out.as_slice()));
                }
            },
            None => {},
        }
        if !str_contains(g.ostemplate.as_str(), ":vztmpl/") {
            extend_str(&mut out, "ostemplate ");
            push_debug(&mut out, g.ostemplate.as_str());
            extend_str(&mut out, " should look like 'storage:vztmpl/filename'");
            return Err(to_string(out.as_slice()));
        }
        match &g.site_name {
            Some(name) => {
                let v = chars_of(name.as_str());
                if trimmed(v.as_slice()).len() == 0 {
                    return Err(
                        "site_name is set but blank — remove it to keep the default".to_owned(),
                    );
                }
                match find_env_breaker(v.as_slice()) {
                    Some(i) => {
                        extend_str(&mut out, "site_name ");
                        push_debug(&mut out, name.as_str());
                        extend_str(&mut out, " contains ");
                        let c = v[i];
                        if c == '\n' {
                            extend_str(&mut out, "'\\n'");
                        } else if c == '\r' {
                            extend_str(&mut out, "'\\r'");
                        } else {
                            extend_str(&mut out, "'#'");
                        }
                        extend_str(&mut out, ", which a compose env_file cannot carry");
                        return Err(to_string(out.as_slice()));
                    },
                    None => {},
                }
            },
            None => {},
        }
        if g.unprivileged && !str_contains(g.features.as_str(), "nesting=1") {
            extend_str(&mut out, "features ");
            push_debug(&mut out, g.features.as_str());
            extend_str(
                &mut out,
                " lacks nesting=1, which Docker needs in an unprivileged container",
            );
            return Err(to_string(out.as_slice()));
        }
        Ok(())
    }
}

/* --- laws -------------------------------------------------------------------------- */

/// The ownership marker always comes first in a guest's tags: alone, or
/// The guest's network asks for DHCP on eth0 of the configured bridge,
/// with the MAC it is pinned to (its own, or the one derived from the
/// vmid), and the VLAN tag only when one is configured.
pub proof fn lemma_net0_pins_mac_and_asks_for_dhcp(g: Guest)
    ensures
        spec_net0(g) == "name=eth0,bridge="@ + g.bridge@ + ",hwaddr="@ + (match g.mac {
            Some(m) => m@,
            None => spec_default_mac(g.vmid),
        }) + ",ip=dhcp"@ + (match g.vlan_tag {
            Some(t) => ",tag="@ + dec(t as nat),
            None => Seq::<char>::empty(),
        }),
{
}

/// followed by the separator and the extra tags.
pub proof fn lemma_tags_lead_with_owner(g: Guest)
    ensures
        spec_tags(g).len() >= owner_tag().len(),
        spec_tags(g).take(owner_tag().len() as int) == owner_tag(),
        spec_tags(g).len() == owner_tag().len() || spec_tags(g)[owner_tag().len() as int] == ';',
{
    reveal_strlit(";");
    lemma_join_cons(owner_tag(), string_views(g.extra_tags@), ";"@);
    let rest = string_views(g.extra_tags@);
    if rest.len() == 0 {
        assert(spec_tags(g) == owner_tag());
        assert(owner_tag().take(owner_tag().len() as int) =~= owner_tag());
    } else {
        let t = owner_tag() + ";"@ + join(rest, ";"@);
        assert(spec_tags(g) == t);
        assert(t.take(owner_tag().len() as int) =~= owner_tag());
        assert(t[owner_tag().len() as int] == ';');
    }
}

/// A derived MAC starts with the octet `02`: locally administered, so it
/// cannot collide with a manufacturer's address, and unicast.
pub proof fn lemma_default_mac_is_local(vmid: u32)
    ensures
        spec_default_mac(vmid).take(3) == "02:"@,
        spec_default_mac(vmid).len() == 17,
{
    reveal_strlit("02:5E:");
    reveal_strlit("02:");
    reveal_strlit(":");
    assert(spec_default_mac(vmid).take(3) =~= "02:"@);
}

proof fn lemma_hex_upper_char_injective(a: nat, b: nat)
    requires
        a < 16,
        b < 16,
        hex_upper_char(a) == hex_upper_char(b),
    ensures
        a == b,
{
}

/// Each VMID has a MAC of its own: the derived address is the same on every
/// run for one VMID, and two VMIDs never share one.
pub proof fn lemma_default_mac_identifies_vmid(a: u32, b: u32)
    requires
        spec_default_mac(a) == spec_default_mac(b),
    ensures
        a == b,
{
    reveal_strlit("02:5E:");
    reveal_strlit(":");
    let ma = spec_default_mac(a);
    let mb = spec_default_mac(b);
    assert forall|k: int| 0 <= k < 4 implies vmid_byte(a, k) == vmid_byte(b, k) by {
        let i = 6 + 3 * k;
        assert(ma[i] == hex_upper_char((vmid_byte(a, k) / 16) as nat));
        assert(mb[i] == hex_upper_char((vmid_byte(b, k) / 16) as nat));
        assert(ma[i + 1] == hex_upper_char((vmid_byte(a, k) % 16) as nat));
        assert(mb[i + 1] == hex_upper_char((vmid_byte(b, k) % 16) as nat));
        lemma_hex_upper_char_injective((vmid_byte(a, k) / 16) as nat, (vmid_byte(b, k) / 16) as nat);
        lemma_hex_upper_char_injective((vmid_byte(a, k) % 16) as nat, (vmid_byte(b, k) % 16) as nat);
    }
    assert(vmid_byte(a, 0) == vmid_byte(b, 0));
    assert(vmid_byte(a, 1) == vmid_byte(b, 1));
    assert(vmid_byte(a, 2) == vmid_byte(b, 2));
    assert(vmid_byte(a, 3) == vmid_byte(b, 3));
    assert(a / 16777216 == b / 16777216);
    assert((a / 65536) % 256 == (b / 65536) % 256);
    assert((a / 256) % 256 == (b / 256) % 256);
    assert(a % 256 == b % 256);
    assert(a == b) by (bit_vector)
        requires
            a / 16777216 == b / 16777216,
            (a / 65536) % 256 == (b / 65536) % 256,
            (a / 256) % 256 == (b / 256) % 256,
            a % 256 == b % 256,
    ;
}

} // verus!
