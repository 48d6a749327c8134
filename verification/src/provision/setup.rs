//! What happens inside the guest once it exists.
//!
//! Every step is written to be a no-op on a second run. The steps are run by
//! the binary; the secrets they need, the commands they send and what their
//! answers mean are decided here.

use vstd::prelude::*;
use crate::text::{
    chars_eq_str, chars_of, contains_sub, dec, extend_chars, extend_str, join, join_strings,
    push_dec, str_contains, string_views, to_string, trim, trimmed,
};
use crate::provision::config::Config;
use crate::provision::runner::{sh_quote, single_quoted, Output};

verus! {

broadcast use vstd::string::group_string_axioms;

/* --- secrets ------------------------------------------------------------------ */

/// The values provisioning needs, from the environment (`.env`, which is
/// never committed, echoed or baked into an image).
#[derive(Debug)]
pub struct Secrets {
    pub cf_token: String,
    pub acme_email: String,
    pub acme_domain: String,
    pub turn_user: String,
    pub turn_pass: String,
    pub turn_realm: String,
}

/// The raw environment values the secrets are read from, each `None` when
/// the variable is unset.
#[derive(Clone, Debug)]
pub struct SecretSources {
    /// `ACME_DOMAIN`
    pub acme_domain: Option<String>,
    /// `CF_Token`
    pub cf_token: Option<String>,
    /// `ACME_EMAIL`
    pub acme_email: Option<String>,
    /// `SPEEDTEST_TURN_USER`, preferred over `TURN_USER`
    pub speedtest_turn_user: Option<String>,
    /// `TURN_USER`
    pub turn_user: Option<String>,
    /// `SPEEDTEST_TURN_PASS`, preferred over `TURN_PASS`
    pub speedtest_turn_pass: Option<String>,
    /// `TURN_PASS`
    pub turn_pass: Option<String>,
    /// `TURN_REALM`; defaults to the ACME domain
    pub turn_realm: Option<String>,
}

/// A usable secret: trimmed, not blank and not the template's `changeme`.
pub open spec fn secret(v: Option<String>) -> Option<Seq<char>> {
    match v {
        Some(s) => if trim(s@).len() > 0 && trim(s@) != "changeme"@ {
            Some(trim(s@))
        } else {
            None
        },
        None => None,
    }
}

/// What a missing secret is reported as.
pub open spec fn missing_message(key: Seq<char>) -> Seq<char> {
    key + " is not set (copy .env.example to .env and fill it in)"@
}

/// The secrets as plain values.
pub struct SecretValues {
    pub cf_token: Seq<char>,
    pub acme_email: Seq<char>,
    pub acme_domain: Seq<char>,
    pub turn_user: Seq<char>,
    pub turn_pass: Seq<char>,
    pub turn_realm: Seq<char>,
}

impl Secrets {
    pub open spec fn values(self) -> SecretValues {
        SecretValues {
            cf_token: self.cf_token@,
            acme_email: self.acme_email@,
            acme_domain: self.acme_domain@,
            turn_user: self.turn_user@,
            turn_pass: self.turn_pass@,
            turn_realm: self.turn_realm@,
        }
    }
}

/// The secrets, or the first one missing, read in this order: the ACME
/// domain, the DNS token, the ACME email, the TURN user, the TURN password.
pub open spec fn spec_secrets(s: SecretSources) -> Result<SecretValues, Seq<char>> {
    if secret(s.acme_domain) is None {
        Err(missing_message("ACME_DOMAIN"@))
    } else if secret(s.cf_token) is None {
        Err(missing_message("CF_Token"@))
    } else if secret(s.acme_email) is None {
        Err(missing_message("ACME_EMAIL"@))
    } else if secret(s.speedtest_turn_user) is None && secret(s.turn_user) is None {
        Err(missing_message("TURN_USER"@))
    } else if secret(s.speedtest_turn_pass) is None && secret(s.turn_pass) is None {
        Err(missing_message("TURN_PASS"@))
    } else {
        Ok(
            SecretValues {
                cf_token: secret(s.cf_token)->0,
                acme_email: secret(s.acme_email)->0,
                acme_domain: secret(s.acme_domain)->0,
                turn_user: if secret(s.speedtest_turn_user) is Some {
                    secret(s.speedtest_turn_user)->0
                } else {
                    secret(s.turn_user)->0
                },
                turn_pass: if secret(s.speedtest_turn_pass) is Some {
                    secret(s.speedtest_turn_pass)->0
                } else {
                    secret(s.turn_pass)->0
                },
                turn_realm: match s.turn_realm {
                    Some(r) => if trim(r@).len() > 0 {
                        trim(r@)
                    } else {
                        secret(s.acme_domain)->0
                    },
                    None => secret(s.acme_domain)->0,
                },
            },
        )
    }
}

fn required(v: &Option<String>, key: &str) -> (r: Result<String, String>)
    ensures
        match secret(*v) {
            Some(x) => r is Ok && r->Ok_0@ == x,
            None => r is Err && r->Err_0@ == missing_message(key@),
        },
{
    match v {
        Some(s) => {
            let t = trimmed(chars_of(s.as_str()).as_slice());
            if t.len() > 0 && !chars_eq_str(t.as_slice(), "changeme") {
                return Ok(to_string(t.as_slice()));
            }
        },
        None => {},
    }
    let mut m: Vec<char> = Vec::new();
    extend_str(&mut m, key);
    extend_str(&mut m, " is not set (copy .env.example to .env and fill it in)");
    Err(to_string(m.as_slice()))
}

impl Secrets {
    /// Reads the secrets from the environment's values, refusing a missing,
    /// blank or placeholder one by name.
    pub fn from_env(s: &SecretSources) -> (r: Result<Secrets, String>)
        ensures
            match spec_secrets(*s) {
                Ok(v) => r is Ok && r->Ok_0.values() == v,
                Err(m) => r is Err && r->Err_0@ == m,
            },
    {
        let acme_domain = required(&s.acme_domain, "ACME_DOMAIN")?;
        let cf_token = required(&s.cf_token, "CF_Token")?;
        let acme_email = required(&s.acme_email, "ACME_EMAIL")?;
        let turn_user = match required(&s.speedtest_turn_user, "SPEEDTEST_TURN_USER") {
            Ok(u) => u,
            Err(_) => required(&s.turn_user, "TURN_USER")?,
        };
        let turn_pass = match required(&s.speedtest_turn_pass, "SPEEDTEST_TURN_PASS") {
            Ok(p) => p,
            Err(_) => required(&s.turn_pass, "TURN_PASS")?,
        };
        let turn_realm = match &s.turn_realm {
            Some(r) => {
                let t = trimmed(chars_of(r.as_str()).as_slice());
                if t.len() > 0 {
                    to_string(t.as_slice())
                } else {
                    acme_domain.clone()
                }
            },
            None => acme_domain.clone(),
        };
        Ok(Secrets { cf_token, acme_email, acme_domain, turn_user, turn_pass, turn_realm })
    }
}

/// Single-quotes a value for a POSIX shell.
pub fn sh(s: &str) -> (r: String)
    ensures
        r@ == single_quoted(s@),
{
    sh_quote(s)
}

/* --- commands ------------------------------------------------------------------ */

/// Packages the guest needs before anything else can be installed.
pub open spec fn base_packages() -> Seq<char> {
    "ca-certificates curl gnupg openssl cron"@
}

/// Brings the package set up to date and installs the basics.
pub fn install_base_command() -> (c: String)
    ensures
        c@ == "export DEBIAN_FRONTEND=noninteractive; apt-get update -qq && apt-get install -y -qq "@
            + base_packages() + " >/dev/null"@,
{
    let mut v: Vec<char> = Vec::new();
    extend_str(
        &mut v,
        "export DEBIAN_FRONTEND=noninteractive; apt-get update -qq && apt-get install -y -qq ",
    );
    extend_str(&mut v, "ca-certificates curl gnupg openssl cron");
    extend_str(&mut v, " >/dev/null");
    to_string(v.as_slice())
}

/// The coturn installer, with the credentials passed as environment on the
/// command itself rather than written to a file by us.
pub fn coturn_command(s: &Secrets, listen_ip: &str) -> (c: String)
    ensures
        c@ == "TURN_USER="@ + single_quoted(s.turn_user@) + " TURN_PASS="@ + single_quoted(
            s.turn_pass@,
        ) + " TURN_REALM="@ + single_quoted(s.turn_realm@) + " LISTEN_IP="@ + single_quoted(
            listen_ip@,
        ) + " /opt/speedtest/install-coturn.sh"@,
{
    let mut v: Vec<char> = Vec::new();
    extend_str(&mut v, "TURN_USER=");
    extend_str(&mut v, sh(s.turn_user.as_str()).as_str());
    extend_str(&mut v, " TURN_PASS=");
    extend_str(&mut v, sh(s.turn_pass.as_str()).as_str());
    extend_str(&mut v, " TURN_REALM=");
    extend_str(&mut v, sh(s.turn_realm.as_str()).as_str());
    extend_str(&mut v, " LISTEN_IP=");
    extend_str(&mut v, sh(listen_ip).as_str());
    extend_str(&mut v, " /opt/speedtest/install-coturn.sh");
    to_string(v.as_slice())
}

/// Persists the DNS token to a root-only file, which is what lets the
/// renewal run unattended.
pub fn acme_env_command(cf_token: &str) -> (c: String)
    ensures
        c@ == "install -d -m 700 /root && umask 077 && printf 'export CF_Token=%s\\n' "@
            + single_quoted(cf_token@) + " > /root/.acme-dns.env"@,
{
    let mut v: Vec<char> = Vec::new();
    extend_str(&mut v, "install -d -m 700 /root && umask 077 && printf 'export CF_Token=%s\\n' ");
    extend_str(&mut v, sh(cf_token).as_str());
    extend_str(&mut v, " > /root/.acme-dns.env");
    to_string(v.as_slice())
}

/// The renewal schedule.
pub open spec fn renewal_cron_line() -> Seq<char> {
    "30 0 * * 0 /root/.acme.sh/acme.sh --cron --home /root/.acme.sh >> /var/log/acme.log 2>&1"@
}

/// Installs the renewal schedule idempotently: any earlier entry is dropped
/// before ours is added.
pub fn install_cron_command() -> (c: String)
    ensures
        c@ == "touch /var/log/acme.log && chmod 600 /var/log/acme.log; ( crontab -l 2>/dev/null | grep -v -F 'acme.sh --cron'; echo "@
            + single_quoted(renewal_cron_line()) + " ) | crontab -"@,
{
    let mut v: Vec<char> = Vec::new();
    extend_str(
        &mut v,
        "touch /var/log/acme.log && chmod 600 /var/log/acme.log; ( crontab -l 2>/dev/null | grep -v -F 'acme.sh --cron'; echo ",
    );
    extend_str(
        &mut v,
        sh(
            "30 0 * * 0 /root/.acme.sh/acme.sh --cron --home /root/.acme.sh >> /var/log/acme.log 2>&1",
        ).as_str(),
    );
    extend_str(&mut v, " ) | crontab -");
    to_string(v.as_slice())
}

/// Issues the wildcard certificate for the ACME domain into `dest` and
/// installs it with a reload hook that restarts the service. Every step is
/// skipped when its result is already there.
pub fn certificate_install_command(s: &Secrets, dest: &str) -> (c: String)
    ensures
        c@ == "\nset -euo pipefail\nexport DEBIAN_FRONTEND=noninteractive\n. /root/.acme-dns.env\nACME=/root/.acme.sh/acme.sh\nif [ ! -x \"$ACME\" ]; then\n  curl -fsS https://get.acme.sh | sh -s email="@
            + single_quoted(s.acme_email@)
            + " >/dev/null\nfi\n\"$ACME\" --set-default-ca --server letsencrypt >/dev/null\n# acme.sh installs its own daily cron; drop it so ours is the only schedule.\ncrontab -l 2>/dev/null | grep -v '.acme.sh' | crontab - || true\ninstall -d -m 700 "@
            + dest@ + "\nif ! \"$ACME\" --list 2>/dev/null | grep -q '\\*\\."@ + s.acme_domain@
            + "'; then\n  \"$ACME\" --issue --dns dns_cf -d '*."@ + s.acme_domain@ + "' -d '"@
            + s.acme_domain@ + "' --keylength ec-256\nfi\n\"$ACME\" --install-cert -d '*."@
            + s.acme_domain@ + "' --ecc \\\n  --fullchain-file "@ + dest@
            + "/fullchain.pem \\\n  --key-file "@ + dest@
            + "/privkey.pem \\\n  --reloadcmd 'cd /opt/speedtest && docker compose restart app'\nchmod 600 "@
            + dest@ + "/*.pem\n"@,
{
    let mut v: Vec<char> = Vec::new();
    extend_str(
        &mut v,
        "\nset -euo pipefail\nexport DEBIAN_FRONTEND=noninteractive\n. /root/.acme-dns.env\nACME=/root/.acme.sh/acme.sh\nif [ ! -x \"$ACME\" ]; then\n  curl -fsS https://get.acme.sh | sh -s email=",
    );
    extend_str(&mut v, sh(s.acme_email.as_str()).as_str());
    extend_str(
        &mut v,
        " >/dev/null\nfi\n\"$ACME\" --set-default-ca --server letsencrypt >/dev/null\n# acme.sh installs its own daily cron; drop it so ours is the only schedule.\ncrontab -l 2>/dev/null | grep -v '.acme.sh' | crontab - || true\ninstall -d -m 700 ",
    );
    extend_str(&mut v, dest);
    extend_str(&mut v, "\nif ! \"$ACME\" --list 2>/dev/null | grep -q '\\*\\.");
    extend_str(&mut v, s.acme_domain.as_str());
    extend_str(&mut v, "'; then\n  \"$ACME\" --issue --dns dns_cf -d '*.");
    extend_str(&mut v, s.acme_domain.as_str());
    extend_str(&mut v, "' -d '");
    extend_str(&mut v, s.acme_domain.as_str());
    extend_str(&mut v, "' --keylength ec-256\nfi\n\"$ACME\" --install-cert -d '*.");
    extend_str(&mut v, s.acme_domain.as_str());
    extend_str(&mut v, "' --ecc \\\n  --fullchain-file ");
    extend_str(&mut v, dest);
    extend_str(&mut v, "/fullchain.pem \\\n  --key-file ");
    extend_str(&mut v, dest);
    extend_str(
        &mut v,
        "/privkey.pem \\\n  --reloadcmd 'cd /opt/speedtest && docker compose restart app'\nchmod 600 ",
    );
    extend_str(&mut v, dest);
    extend_str(&mut v, "/*.pem\n");
    to_string(v.as_slice())
}

/// Writes the deployed `.env` under a restrictive umask (it holds the TURN
/// password), as a quoted here-document so nothing in it is expanded.
pub fn env_file_command(env_body: &str) -> (c: String)
    ensures
        c@ == "install -d -m 750 /opt/speedtest && umask 077 && cat > /opt/speedtest/.env <<'SPEEDTEST_ENV_EOF'\n"@
            + env_body@ + "\nSPEEDTEST_ENV_EOF"@,
{
    let mut v: Vec<char> = Vec::new();
    extend_str(
        &mut v,
        "install -d -m 750 /opt/speedtest && umask 077 && cat > /opt/speedtest/.env <<'SPEEDTEST_ENV_EOF'\n",
    );
    extend_str(&mut v, env_body);
    extend_str(&mut v, "\nSPEEDTEST_ENV_EOF");
    to_string(v.as_slice())
}

/// Reads the certificate's subject and expiry.
pub fn certificate_command(tls_dir: &str) -> (c: String)
    ensures
        c@ == "openssl x509 -in "@ + tls_dir@ + "/fullchain.pem -noout -subject -enddate"@,
{
    let mut v: Vec<char> = Vec::new();
    extend_str(&mut v, "openssl x509 -in ");
    extend_str(&mut v, tls_dir);
    extend_str(&mut v, "/fullchain.pem -noout -subject -enddate");
    to_string(v.as_slice())
}

/* --- what the answers mean ------------------------------------------------------- */

/// Renewal is scheduled only when root's crontab holds an `acme.sh --cron`
/// entry; the installer's own report is not taken on trust.
pub fn cron_verdict(crontab: &Output) -> (r: Result<(), String>)
    ensures
        contains_sub(crontab.stdout@, "acme.sh --cron"@) ==> r is Ok,
        !contains_sub(crontab.stdout@, "acme.sh --cron"@) ==> r is Err && r->Err_0@
            == "certificate renewal is NOT scheduled: root's crontab has no `acme.sh --cron` entry. This is precisely the state the predecessor host was found in — a valid certificate that nothing will ever renew. Current crontab:\n"@
            + trim(crontab.stdout@),
{
    if str_contains(crontab.stdout.as_str(), "acme.sh --cron") {
        return Ok(());
    }
    let mut v: Vec<char> = Vec::new();
    extend_str(
        &mut v,
        "certificate renewal is NOT scheduled: root's crontab has no `acme.sh --cron` entry. This is precisely the state the predecessor host was found in — a valid certificate that nothing will ever renew. Current crontab:\n",
    );
    extend_chars(&mut v, trimmed(chars_of(crontab.stdout.as_str()).as_slice()).as_slice());
    Err(to_string(v.as_slice()))
}

/// The certificate must be readable where the service expects it.
pub fn certificate_verdict(tls_dir: &str, cert: &Output) -> (r: Result<(), String>)
    ensures
        cert.status == 0 ==> r is Ok,
        cert.status != 0 ==> r is Err && r->Err_0@ == "no readable certificate at "@ + tls_dir@
            + "/fullchain.pem: "@ + trim(cert.stderr@),
{
    if cert.succeeded() {
        return Ok(());
    }
    let mut v: Vec<char> = Vec::new();
    extend_str(&mut v, "no readable certificate at ");
    extend_str(&mut v, tls_dir);
    extend_str(&mut v, "/fullchain.pem: ");
    extend_chars(&mut v, trimmed(chars_of(cert.stderr.as_str()).as_slice()).as_slice());
    Err(to_string(v.as_slice()))
}

/// Whether a renewed certificate reaches the service: the reload hook must
/// restart it. Half a renewal is flagged, not fatal.
pub fn reload_hook_restarts_service(hook: &Output) -> (b: bool)
    ensures
        b == contains_sub(hook.stdout@, "docker compose restart"@),
{
    str_contains(hook.stdout.as_str(), "docker compose restart")
}

/// Docker counts as present when the probe succeeds.
pub fn docker_present(probe: &Output) -> (b: bool)
    ensures
        b == (probe.status == 0),
{
    probe.succeeded()
}

/// The health check passes on a successful `ok`.
pub fn healthy(out: &Output) -> (b: bool)
    ensures
        b == (out.status == 0 && trim(out.stdout@) == "ok"@),
{
    out.succeeded() && chars_eq_str(trimmed(chars_of(out.stdout.as_str()).as_slice()).as_slice(), "ok")
}

/// What a service that never became healthy is reported as, with the tail
/// of its logs.
pub fn unhealthy_message(attempts: u32, logs: &Output) -> (m: String)
    ensures
        m@ == "the application did not become healthy after "@ + dec(attempts as nat)
            + " attempts. Container logs:\n"@ + trim(logs.stdout@),
{
    let mut v: Vec<char> = Vec::new();
    extend_str(&mut v, "the application did not become healthy after ");
    push_dec(&mut v, attempts as u64);
    extend_str(&mut v, " attempts. Container logs:\n");
    extend_chars(&mut v, trimmed(chars_of(logs.stdout.as_str()).as_slice()).as_slice());
    to_string(v.as_slice())
}

/* --- the deployed environment ------------------------------------------------------ */

/// The lines of the `.env` written to the guest for compose. TLS and TURN
/// are configured only alongside the secrets that make them work.
pub open spec fn deploy_env_lines(profile: Seq<char>, secrets: Option<Secrets>, listen_ip: Seq<char>) -> Seq<Seq<char>> {
    seq![
        "# Written by speedtest-provision. Do not edit by hand."@,
        "SPEEDTEST_PROFILE="@ + profile,
        "SPEEDTEST_BIND=0.0.0.0:8080"@,
        "SPEEDTEST_LOG=info"@,
        "SPEEDTEST_HISTORY_DB=/app/data/history.db"@,
    ] + match secrets {
        Some(s) => seq![
            "SPEEDTEST_TLS_BIND=0.0.0.0:443"@,
            "SPEEDTEST_TLS_CERT_FILE=/etc/speedtest/tls/fullchain.pem"@,
            "SPEEDTEST_TLS_KEY_FILE=/etc/speedtest/tls/privkey.pem"@,
            "SPEEDTEST_TURN_ENABLED=true"@,
            "SPEEDTEST_TURN_URI="@ + listen_ip + ":3478"@,
            "SPEEDTEST_TURN_USER="@ + s.turn_user@,
            "SPEEDTEST_TURN_PASS="@ + s.turn_pass@,
        ],
        None => seq!["SPEEDTEST_TURN_ENABLED=false"@],
    }
}

fn line(a: &str, b: &str, c: &str) -> (s: String)
    ensures
        s@ == a@ + b@ + c@,
{
    let mut v: Vec<char> = Vec::new();
    extend_str(&mut v, a);
    extend_str(&mut v, b);
    extend_str(&mut v, c);
    to_string(v.as_slice())
}

/// The `.env` written to the guest for compose, one setting per line.
pub fn deploy_env(cfg: &Config, secrets: Option<&Secrets>, listen_ip: &str) -> (env: String)
    ensures
        env@ == join(
            deploy_env_lines(
                cfg.guest.measurement_profile@,
                match secrets {
                    Some(s) => Some(*s),
                    None => None,
                },
                listen_ip@,
            ),
            "\n"@,
        ),
{
    proof {
        reveal_strlit("");
    }
    let mut lines: Vec<String> = Vec::new();
    lines.push("# Written by speedtest-provision. Do not edit by hand.".to_owned());
    lines.push(line("SPEEDTEST_PROFILE=", cfg.guest.measurement_profile.as_str(), ""));
    lines.push("SPEEDTEST_BIND=0.0.0.0:8080".to_owned());
    lines.push("SPEEDTEST_LOG=info".to_owned());
    lines.push("SPEEDTEST_HISTORY_DB=/app/data/history.db".to_owned());
    match secrets {
        Some(s) => {
            lines.push("SPEEDTEST_TLS_BIND=0.0.0.0:443".to_owned());
            lines.push("SPEEDTEST_TLS_CERT_FILE=/etc/speedtest/tls/fullchain.pem".to_owned());
            lines.push("SPEEDTEST_TLS_KEY_FILE=/etc/speedtest/tls/privkey.pem".to_owned());
            lines.push("SPEEDTEST_TURN_ENABLED=true".to_owned());
            lines.push(line("SPEEDTEST_TURN_URI=", listen_ip, ":3478"));
            lines.push(line("SPEEDTEST_TURN_USER=", s.turn_user.as_str(), ""));
            lines.push(line("SPEEDTEST_TURN_PASS=", s.turn_pass.as_str(), ""));
        },
        None => {
            lines.push("SPEEDTEST_TURN_ENABLED=false".to_owned());
        },
    }
    assert(string_views(lines@) =~= deploy_env_lines(
        cfg.guest.measurement_profile@,
        match secrets {
            Some(s) => Some(*s),
            None => None,
        },
        listen_ip@,
    ));
    join_strings(lines.as_slice(), "\n")
}

} // verus!
