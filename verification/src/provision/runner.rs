//! Commands for the hypervisor, and a scripted stand-in for one.
//!
//! Everything the tool does to the node is a command run over SSH. Building
//! those commands, and quoting them for the remote shell, happens here; so
//! does the scripted runner the whole flow is tested against.

use std::collections::VecDeque;
use vstd::prelude::*;
use crate::text::{find_char, lemma_find_char, lemma_find_char_at, lemma_find_char_none, contains_sub, str_contains, chars_of, extend_str, join, join_strings, string_views, to_string};

verus! {

broadcast use vstd::string::group_string_axioms;

/// What a command produced.
#[derive(Clone, Debug, PartialEq, Eq)]
pub struct Output {
    pub status: i32,
    pub stdout: String,
    pub stderr: String,
}

impl Output {
    /// What a finished remote command is reported as: its exit code, or -1
    /// when it has none (it was killed by a signal). A nonzero exit is data,
    /// not an error.
    pub fn finished(code: Option<i32>, stdout: String, stderr: String) -> (o: Output)
        ensures
            o.status == match code {
                Some(c) => c as int,
                None => -1int,
            },
            o.stdout == stdout,
            o.stderr == stderr,
    {
        let status = match code {
            Some(c) => c,
            None => -1,
        };
        Output { status, stdout, stderr }
    }

    /// A successful command that printed `stdout`.
    pub fn ok(stdout: &str) -> (o: Output)
        ensures
            o.status == 0,
            o.stdout@ == stdout@,
            o.stderr@.len() == 0,
    {
        Output { status: 0, stdout: stdout.to_owned(), stderr: String::new() }
    }

    /// A failed command that exited `status` and printed `stderr`.
    pub fn fail(status: i32, stderr: &str) -> (o: Output)
        ensures
            o.status == status,
            o.stdout@.len() == 0,
            o.stderr@ == stderr@,
    {
        Output { status, stdout: String::new(), stderr: stderr.to_owned() }
    }

    /// A non-zero exit is data, not an error.
    pub fn succeeded(&self) -> (b: bool)
        ensures
            b == (self.status == 0),
    {
        self.status == 0
    }

    /// A copy of this output.
    pub fn copy(&self) -> (o: Output)
        ensures
            o == *self,
    {
        Output { status: self.status, stdout: self.stdout.clone(), stderr: self.stderr.clone() }
    }
}

/// An argv from its parts.
pub fn argv(parts: &[&str]) -> (v: Vec<String>)
    ensures
        v@.len() == parts@.len(),
        forall|k: int| 0 <= k < parts@.len() ==> #[trigger] v@[k]@ == parts@[k]@,
{
    let mut v: Vec<String> = Vec::new();
    let mut i: usize = 0;
    while i < parts.len()
        invariant
            i <= parts@.len(),
            v@.len() == i,
            forall|k: int| 0 <= k < i ==> #[trigger] v@[k]@ == parts@[k]@,
        decreases parts.len() - i,
    {
        v.push(parts[i].to_owned());
        i = i + 1;
    }
    v
}

/* --- quoting ---------------------------------------------------------------- */

/// Characters a POSIX shell reads literally outside quotes.
pub open spec fn plain_char(c: char) -> bool {
    ('a' <= c && c <= 'z') || ('A' <= c && c <= 'Z') || ('0' <= c && c <= '9') || c == '-'
        || c == '_' || c == '.' || c == '/' || c == ':' || c == '=' || c == ',' || c == '@'
        || c == '+'
}

pub open spec fn all_plain(s: Seq<char>) -> bool {
    forall|k: int| 0 <= k < s.len() ==> plain_char(#[trigger] s[k])
}

/// Each `'` replaced by `'\''`, everything else kept.
pub open spec fn escape_quotes(s: Seq<char>) -> Seq<char>
    decreases s.len(),
{
    if s.len() == 0 {
        Seq::empty()
    } else {
        escape_quotes(s.drop_last()) + if s.last() == '\'' {
            seq!['\'', '\\', '\'', '\'']
        } else {
            seq![s.last()]
        }
    }
}

/// `s` single-quoted for a POSIX shell.
pub open spec fn single_quoted(s: Seq<char>) -> Seq<char> {
    seq!['\''] + escape_quotes(s) + seq!['\'']
}

/// An argument as the remote shell should see it: left alone when it is
/// non-empty and made only of characters the shell reads literally, quoted
/// otherwise.
pub open spec fn spec_shell_quote(s: Seq<char>) -> Seq<char> {
    if s.len() > 0 && all_plain(s) {
        s
    } else {
        single_quoted(s)
    }
}

fn is_plain(c: char) -> (b: bool)
    ensures
        b == plain_char(c),
{
    ('a' <= c && c <= 'z') || ('A' <= c && c <= 'Z') || ('0' <= c && c <= '9') || c == '-'
        || c == '_' || c == '.' || c == '/' || c == ':' || c == '=' || c == ',' || c == '@'
        || c == '+'
}

/// Single-quotes a value for a POSIX shell.
pub fn sh_quote(s: &str) -> (r: String)
    ensures
        r@ == single_quoted(s@),
{
    let v = chars_of(s);
    let mut out: Vec<char> = Vec::new();
    out.push('\'');
    let mut i: usize = 0;
    while i < v.len()
        invariant
            i <= v@.len(),
            v@ == s@,
            out@ == seq!['\''] + escape_quotes(v@.take(i as int)),
        decreases v.len() - i,
    {
        assert(v@.take(i + 1).drop_last() =~= v@.take(i as int));
        if v[i] == '\'' {
            out.push('\'');
            out.push('\\');
            out.push('\'');
            out.push('\'');
        } else {
            out.push(v[i]);
        }
        assert(out@ =~= seq!['\''] + escape_quotes(v@.take(i + 1)));
        i = i + 1;
    }
    out.push('\'');
    assert(v@.take(v@.len() as int) =~= v@);
    assert(out@ =~= single_quoted(s@));
    to_string(out.as_slice())
}

/// Single-quotes an argument for a POSIX remote shell, unless it is plain.
pub fn shell_quote(s: &str) -> (r: String)
    ensures
        r@ == spec_shell_quote(s@),
{
    let v = chars_of(s);
    let mut plain = v.len() > 0;
    let mut i: usize = 0;
    while i < v.len()
        invariant
            i <= v@.len(),
            v@ == s@,
            plain == (v@.len() > 0 && forall|k: int| 0 <= k < i ==> plain_char(#[trigger] v@[k])),
        decreases v.len() - i,
    {
        if !is_plain(v[i]) {
            plain = false;
        }
        i = i + 1;
    }
    if plain {
        s.to_owned()
    } else {
        sh_quote(s)
    }
}

/// Each argument quoted for the remote shell.
pub open spec fn quoted_all(argv: Seq<Seq<char>>) -> Seq<Seq<char>> {
    argv.map_values(|a: Seq<char>| spec_shell_quote(a))
}

/// The whole command as one string for the remote shell, so it sees exactly
/// the arguments intended, spaces and all.
pub fn remote_command(argv: &[String]) -> (r: String)
    ensures
        r@ == join(quoted_all(string_views(argv@)), " "@),
{
    let mut quoted: Vec<String> = Vec::new();
    let mut i: usize = 0;
    while i < argv.len()
        invariant
            i <= argv@.len(),
            string_views(quoted@) == quoted_all(string_views(argv@)).take(i as int),
        decreases argv.len() - i,
    {
        let ghost before = quoted@;
        let q = shell_quote(argv[i].as_str());
        quoted.push(q);
        assert(quoted@ == before.push(q));
        assert(string_views(argv@)[i as int] == argv@[i as int]@);
        assert(string_views(quoted@) =~= string_views(before).push(q@));
        assert(string_views(quoted@) =~= quoted_all(string_views(argv@)).take(i + 1));
        i = i + 1;
    }
    assert(quoted_all(string_views(argv@)).take(argv@.len() as int) =~= quoted_all(
        string_views(argv@),
    ));
    join_strings(quoted.as_slice(), " ")
}

/* --- the SSH runner ------------------------------------------------------------ */

/// Where and how commands reach the node over SSH.
#[derive(Clone, Debug)]
pub struct SshRunner {
    target: String,
    /// Extra `ssh` options, e.g. an explicit identity file.
    opts: Vec<String>,
}

/// The options every connection uses: fail rather than hang on a prompt,
/// give up on an unreachable node, and pin the host key on first use.
pub open spec fn base_opts() -> Seq<Seq<char>> {
    seq![
        "-o"@,
        "BatchMode=yes"@,
        "-o"@,
        "ConnectTimeout=15"@,
        "-o"@,
        "StrictHostKeyChecking=accept-new"@,
    ]
}

impl SshRunner {
    pub closed spec fn target_spec(self) -> Seq<char> {
        self.target@
    }

    pub closed spec fn opts_spec(self) -> Seq<Seq<char>> {
        string_views(self.opts@)
    }

    pub fn new(user: &str, host: &str, identity: Option<&str>) -> (r: SshRunner)
        ensures
            r.target_spec() == user@ + "@"@ + host@,
            r.opts_spec() == match identity {
                Some(id) => base_opts() + seq!["-i"@, id@],
                None => base_opts(),
            },
    {
        let mut opts: Vec<String> = vec![
            "-o".to_owned(),
            "BatchMode=yes".to_owned(),
            "-o".to_owned(),
            "ConnectTimeout=15".to_owned(),
            "-o".to_owned(),
            "StrictHostKeyChecking=accept-new".to_owned(),
        ];
        assert(string_views(opts@) =~= base_opts());
        match identity {
            Some(id) => {
                opts.push("-i".to_owned());
                opts.push(id.to_owned());
                assert(string_views(opts@) =~= base_opts() + seq!["-i"@, id@]);
            },
            None => {},
        }
        let mut t: Vec<char> = Vec::new();
        extend_str(&mut t, user);
        extend_str(&mut t, "@");
        extend_str(&mut t, host);
        SshRunner { target: to_string(t.as_slice()), opts }
    }

    /// The arguments to `ssh` that run `argv` on the node.
    pub fn ssh_args(&self, argv: &[String]) -> (r: Vec<String>)
        ensures
            string_views(r@) == self.opts_spec() + seq![
                self.target_spec(),
                "--"@,
                join(quoted_all(string_views(argv@)), " "@),
            ],
    {
        let mut r: Vec<String> = self.opts.clone();
        let ghost before = r@;
        r.push(self.target.clone());
        r.push("--".to_owned());
        r.push(remote_command(argv));
        assert(string_views(r@) =~= self.opts_spec() + seq![
            self.target_spec(),
            "--"@,
            join(quoted_all(string_views(argv@)), " "@),
        ]);
        r
    }

    /// The arguments to `scp` that copy `local` to `remote` on the node.
    pub fn scp_args(&self, local: &str, remote: &str) -> (r: Vec<String>)
        ensures
            string_views(r@) == self.opts_spec() + seq![
                local@,
                self.target_spec() + ":"@ + remote@,
            ],
    {
        let mut r: Vec<String> = self.opts.clone();
        r.push(local.to_owned());
        let mut d: Vec<char> = Vec::new();
        extend_str(&mut d, self.target.as_str());
        extend_str(&mut d, ":");
        extend_str(&mut d, remote);
        r.push(to_string(d.as_slice()));
        assert(string_views(r@) =~= self.opts_spec() + seq![
            local@,
            self.target_spec() + ":"@ + remote@,
        ]);
        r
    }

    pub fn target(&self) -> (t: &String)
        ensures
            t@ == self.target_spec(),
    {
        &self.target
    }
}

/* --- the scripted runner ------------------------------------------------------- */

/// A scripted runner for tests: records every command it is given and
/// replies from a queue, falling back to a benign success once the queue is
/// empty, so a test can assert both on what was done and on what was not.
#[derive(Debug)]
pub struct FakeRunner {
    replies: VecDeque<Output>,
    calls: Vec<Vec<String>>,
    uploads: Vec<(String, String)>,
    default: Output,
}

fn copy_argv(argv: &[String]) -> (r: Vec<String>)
    ensures
        r@ == argv@,
{
    let mut r: Vec<String> = Vec::new();
    let mut i: usize = 0;
    while i < argv.len()
        invariant
            i <= argv@.len(),
            r@ == argv@.take(i as int),
        decreases argv.len() - i,
    {
        r.push(argv[i].clone());
        assert(r@ =~= argv@.take(i + 1));
        i = i + 1;
    }
    assert(argv@.take(argv@.len() as int) =~= argv@);
    r
}

/// The commands recorded, each joined with spaces.
pub open spec fn lines_of(calls: Seq<Vec<String>>) -> Seq<Seq<char>> {
    calls.map_values(|c: Vec<String>| join(string_views(c@), " "@))
}

impl FakeRunner {
    /// The replies still queued, front first.
    pub closed spec fn queued(self) -> Seq<Output> {
        self.replies@
    }

    /// Every command run, in order.
    pub closed spec fn calls_spec(self) -> Seq<Vec<String>> {
        self.calls@
    }

    /// Every upload, as `(local, remote)`, in order.
    pub closed spec fn uploads_spec(self) -> Seq<(String, String)> {
        self.uploads@
    }

    /// Every command run, in order.
    pub fn calls(&self) -> (c: &Vec<Vec<String>>)
        ensures
            c@ == self.calls_spec(),
    {
        &self.calls
    }

    /// Every upload, as `(local, remote)`, in order.
    pub fn uploads(&self) -> (u: &Vec<(String, String)>)
        ensures
            u@ == self.uploads_spec(),
    {
        &self.uploads
    }

    /// What is answered once the queue is empty.
    pub closed spec fn fallback(self) -> Output {
        self.default
    }

    /// Made from `replies` and run as many times as it has recorded calls:
    /// the replies not yet given are still queued, and the fallback is an
    /// empty success.
    pub open spec fn replays(self, replies: Seq<Output>) -> bool {
        &&& self.queued() == replies.skip(
            if self.calls_spec().len() < replies.len() {
                self.calls_spec().len() as int
            } else {
                replies.len() as int
            },
        )
        &&& self.fallback().status == 0
        &&& self.fallback().stdout@.len() == 0
        &&& self.fallback().stderr@.len() == 0
    }

    /// One `run` of `argv` that took the fake from `before` to `after` and
    /// answered `o`.
    pub open spec fn ran(before: FakeRunner, after: FakeRunner, argv: Seq<String>, o: Output) -> bool {
        &&& after.calls_spec().len() == before.calls_spec().len() + 1
        &&& after.calls_spec().take(before.calls_spec().len() as int) == before.calls_spec()
        &&& after.calls_spec().last()@ == argv
        &&& after.uploads_spec() == before.uploads_spec()
        &&& after.fallback() == before.fallback()
        &&& before.queued().len() > 0 ==> o == before.queued()[0] && after.queued()
            == before.queued().drop_first()
        &&& before.queued().len() == 0 ==> o == before.fallback() && after.queued()
            == before.queued()
    }

    pub fn new(replies: Vec<Output>) -> (f: FakeRunner)
        ensures
            f.replays(replies@),
            f.queued() == replies@,
            f.calls_spec().len() == 0,
            f.uploads_spec().len() == 0,
            f.fallback().status == 0,
            f.fallback().stdout@.len() == 0,
            f.fallback().stderr@.len() == 0,
    {
        proof {
            reveal_strlit("");
        }
        let ghost all = replies@;
        let mut rest = replies;
        let mut queue: VecDeque<Output> = VecDeque::new();
        while rest.len() > 0
            invariant
                rest@ + queue@ == all,
            decreases rest@.len(),
        {
            let o = rest.pop().unwrap();
            queue.push_front(o);
            assert(rest@ + queue@ =~= all);
        }
        assert(queue@ =~= all);
        let f = FakeRunner {
            replies: queue,
            calls: Vec::new(),
            uploads: Vec::new(),
            default: Output::ok(""),
        };
        assert(f.replies@.skip(0) =~= f.replies@);
        f
    }

    /// Records `argv` and answers with the next queued reply.
    pub fn run(&mut self, argv: &[String]) -> (o: Output)
        ensures
            FakeRunner::ran(*old(self), *final(self), argv@, o),
    {
        let ghost before = self.calls_spec();
        self.calls.push(copy_argv(argv));
        assert(self.calls_spec().take(before.len() as int) =~= before);
        match self.replies.pop_front() {
            Some(o) => {
                assert(self.replies@ =~= old(self).replies@.drop_first());
                o
            },
            None => self.default.copy(),
        }
    }

    /// Records an upload.
    pub fn upload(&mut self, local: &str, remote: &str)
        ensures
            final(self).uploads_spec().len() == old(self).uploads_spec().len() + 1,
            final(self).uploads_spec().take(old(self).uploads_spec().len() as int) == old(self).uploads_spec(),
            final(self).uploads_spec().last().0@ == local@,
            final(self).uploads_spec().last().1@ == remote@,
            final(self).calls_spec() == old(self).calls_spec(),
            final(self).queued() == old(self).queued(),
            final(self).fallback() == old(self).fallback(),
    {
        let ghost before = self.uploads_spec();
        self.uploads.push((local.to_owned(), remote.to_owned()));
        assert(self.uploads_spec().take(before.len() as int) =~= before);
    }

    /// Every command the tool ran, joined for readable assertions.
    pub fn command_lines(&self) -> (r: Vec<String>)
        ensures
            string_views(r@) == lines_of(self.calls_spec()),
    {
        let mut r: Vec<String> = Vec::new();
        let mut i: usize = 0;
        while i < self.calls.len()
            invariant
                i <= self.calls_spec().len(),
                string_views(r@) == lines_of(self.calls_spec()).take(i as int),
            decreases self.calls.len() - i,
        {
            let ghost before = r@;
            let line = join_strings(self.calls[i].as_slice(), " ");
            r.push(line);
            assert(string_views(r@) =~= string_views(before).push(line@));
            assert(string_views(r@) =~= lines_of(self.calls_spec()).take(i + 1));
            i = i + 1;
        }
        assert(lines_of(self.calls_spec()).take(self.calls_spec().len() as int) =~= lines_of(self.calls_spec()));
        r
    }

    /// Whether any command line contains `needle`.
    pub fn ran_anything_matching(&self, needle: &str) -> (b: bool)
        ensures
            b == exists|k: int|
                0 <= k < self.calls_spec().len() && contains_sub(
                    #[trigger] lines_of(self.calls_spec())[k],
                    needle@,
                ),
    {
        let lines = self.command_lines();
        assert(lines@.len() == lines_of(self.calls_spec()).len());
        assert(lines_of(self.calls_spec()).len() == self.calls_spec().len());
        let mut i: usize = 0;
        while i < lines.len()
            invariant
                i <= lines@.len(),
                lines@.len() == self.calls_spec().len(),
                string_views(lines@) == lines_of(self.calls_spec()),
                forall|k: int| 0 <= k < i ==> !contains_sub(#[trigger] lines_of(self.calls_spec())[k], needle@),
            decreases lines.len() - i,
        {
            assert(string_views(lines@)[i as int] == lines@[i as int]@);
            if str_contains(lines[i].as_str(), needle) {
                assert(contains_sub(lines_of(self.calls_spec())[i as int], needle@));
                return true;
            }
            i = i + 1;
        }
        false
    }
}

/* --- laws ------------------------------------------------------------------------ */

/// How a POSIX shell reads one word built from the forms used here: plain
/// characters, single-quoted runs (everything up to the next `'`, taken
/// literally) and `\` followed by a character. `None` when the word is
/// unfinished or holds a character the shell would treat specially.
pub open spec fn shell_word(t: Seq<char>) -> Option<Seq<char>>
    decreases t.len(),
{
    if t.len() == 0 {
        Some(Seq::empty())
    } else if t[0] == '\'' {
        let body = t.drop_first();
        let j = find_char(body, '\'');
        if j < 0 {
            None
        } else {
            proof {
                lemma_find_char(body, '\'');
            }
            match shell_word(body.skip(j + 1)) {
                Some(r) => Some(body.take(j) + r),
                None => None,
            }
        }
    } else if t[0] == '\\' {
        if t.len() < 2 {
            None
        } else {
            match shell_word(t.skip(2)) {
                Some(r) => Some(seq![t[1]] + r),
                None => None,
            }
        }
    } else if plain_char(t[0]) {
        match shell_word(t.drop_first()) {
            Some(r) => Some(seq![t[0]] + r),
            None => None,
        }
    } else {
        None
    }
}

/// Escaping quotes distributes over concatenation.
pub proof fn lemma_escape_quotes_concat(a: Seq<char>, b: Seq<char>)
    ensures
        escape_quotes(a + b) == escape_quotes(a) + escape_quotes(b),
    decreases b.len(),
{
    if b.len() == 0 {
        assert(a + b =~= a);
        assert(escape_quotes(b) =~= Seq::<char>::empty());
        assert(escape_quotes(a) + escape_quotes(b) =~= escape_quotes(a));
    } else {
        lemma_escape_quotes_concat(a, b.drop_last());
        assert((a + b).drop_last() =~= a + b.drop_last());
        assert((a + b).last() == b.last());
        let tail = if b.last() == '\'' {
            seq!['\'', '\\', '\'', '\'']
        } else {
            seq![b.last()]
        };
        assert(escape_quotes(a) + escape_quotes(b) =~= escape_quotes(a) + escape_quotes(
            b.drop_last(),
        ) + tail);
    }
}

/// Text without a quote is left as it is.
pub proof fn lemma_escape_quotes_plain(s: Seq<char>)
    requires
        forall|k: int| 0 <= k < s.len() ==> s[k] != '\'',
    ensures
        escape_quotes(s) == s,
    decreases s.len(),
{
    if s.len() > 0 {
        lemma_escape_quotes_plain(s.drop_last());
        assert(escape_quotes(s) =~= s.drop_last() + seq![s.last()]);
        assert(s.drop_last() + seq![s.last()] =~= s);
    } else {
        assert(escape_quotes(s) =~= s);
    }
}

/// The remote shell receives exactly the value that was quoted, whatever it
/// holds: quotes, `$(...)`, backquotes, separators or nothing at all.
#[verifier::spinoff_prover]
pub proof fn lemma_single_quoted_reads_back(s: Seq<char>)
    ensures
        shell_word(single_quoted(s)) == Some(s),
    decreases s.len(),
{
    let t = single_quoted(s);
    let body = t.drop_first();
    assert(t.len() > 0 && t[0] == '\'');
    assert(body =~= escape_quotes(s) + seq!['\'']);
    let i = find_char(s, '\'');
    lemma_find_char(s, '\'');
    if i < 0 {
        lemma_find_char_none(s, '\'');
        lemma_escape_quotes_plain(s);
        assert(body =~= s + seq!['\'']);
        lemma_find_char_at(body, '\'', s.len() as int);
        assert(body.take(s.len() as int) =~= s);
        assert(body.skip(s.len() as int + 1) =~= Seq::<char>::empty());
        assert(shell_word(Seq::<char>::empty()) == Some(Seq::<char>::empty()));
        assert(shell_word(t) == Some(body.take(s.len() as int) + Seq::<char>::empty()));
        assert(s + Seq::<char>::empty() =~= s);
    } else {
        let p = s.take(i);
        let q = s.skip(i + 1);
        assert(s =~= p + seq!['\''] + q);
        assert forall|k: int| 0 <= k < p.len() implies p[k] != '\'' by {
            assert(p[k] == s[k]);
        }
        lemma_escape_quotes_plain(p);
        lemma_escape_quotes_concat(p + seq!['\''], q);
        lemma_escape_quotes_concat(p, seq!['\'']);
        assert(escape_quotes(seq!['\'']) =~= seq!['\'', '\\', '\'', '\'']) by {
            assert(seq!['\''].drop_last() =~= Seq::<char>::empty());
            assert(escape_quotes(Seq::<char>::empty()) =~= Seq::<char>::empty());
        }
        let after = seq!['\\', '\'', '\''] + escape_quotes(q) + seq!['\''];
        assert(body =~= p + seq!['\''] + after);
        lemma_find_char_at(body, '\'', p.len() as int);
        assert(body.take(p.len() as int) =~= p);
        assert(body.skip(p.len() as int + 1) =~= after);
        lemma_single_quoted_reads_back(q);
        assert(after.skip(2) =~= single_quoted(q));
        assert(after.len() >= 2 && after[0] == '\\' && after[1] == '\'');
        assert(shell_word(after) == Some(seq!['\''] + q));
        assert(shell_word(t) == Some(body.take(p.len() as int) + (seq!['\''] + q)));
        assert(p + (seq!['\''] + q) =~= s);
    }
}

/// A plain argument is a word of its own.
pub proof fn lemma_plain_reads_back(s: Seq<char>)
    requires
        all_plain(s),
    ensures
        shell_word(s) == Some(s),
    decreases s.len(),
{
    if s.len() > 0 {
        assert(all_plain(s.drop_first())) by {
            assert forall|k: int| 0 <= k < s.drop_first().len() implies plain_char(
                #[trigger] s.drop_first()[k],
            ) by {
                assert(s.drop_first()[k] == s[k + 1]);
            }
        }
        assert(plain_char(s[0]));
        lemma_plain_reads_back(s.drop_first());
        assert(seq![s[0]] + s.drop_first() =~= s);
    } else {
        assert(s =~= Seq::<char>::empty());
    }
}

/// Every argument reaches the hypervisor unchanged: what the remote shell
/// reads back from `shell_quote` is the argument itself.
pub proof fn lemma_shell_quote_reads_back(s: Seq<char>)
    ensures
        shell_word(spec_shell_quote(s)) == Some(s),
{
    if s.len() > 0 && all_plain(s) {
        lemma_plain_reads_back(s);
    } else {
        lemma_single_quoted_reads_back(s);
    }
}

/// A fake made from `replies` answers its k-th run (counting from zero)
/// with `replies[k]`, and with an empty success once they have run out;
/// every run is recorded, and uploads between runs change neither.
pub proof fn lemma_fake_replays(
    before: FakeRunner,
    after: FakeRunner,
    argv: Seq<String>,
    o: Output,
    replies: Seq<Output>,
)
    requires
        before.replays(replies),
        FakeRunner::ran(before, after, argv, o),
    ensures
        after.replays(replies),
        after.calls_spec() == before.calls_spec().push(after.calls_spec().last()),
        after.calls_spec().last()@ == argv,
        before.calls_spec().len() < replies.len() ==> o == replies[before.calls_spec().len() as int],
        before.calls_spec().len() >= replies.len() ==> o.status == 0 && o.stdout@.len() == 0
            && o.stderr@.len() == 0,
{
    let k = before.calls_spec().len() as int;
    assert(after.calls_spec() =~= before.calls_spec().push(after.calls_spec().last()));
    if k < replies.len() {
        assert(before.queued()[0] == replies[k]);
        assert(before.queued().drop_first() =~= replies.skip(k + 1));
    } else {
        assert(before.queued() =~= Seq::<Output>::empty());
    }
}

} // verus!
