//! How a sync is run: which side this process plays, the command line that
//! starts the other side, and the retries of a remote session.

use vstd::prelude::*;
use vstd::utf8::*;
use vstd::string::StringSliceAdditionalSpecFns;
use crate::args::{Options, OptionsModel};
use crate::commands::{
    append_file_opts, build_ssh_prefix, file_opts, lemma_file_opts_extends, lemma_file_opts_read,
    lemma_option_words_safe, lemma_prefix_trans, lemma_ssh_prefix_port, lemma_with_arg_on_extends,
    opt_safe, option_args, path_argument, port_option, ssh_prefix, verbosity_with,
};
use crate::numbers::{decimal, lemma_decimal_is_digits};
use crate::paths::{
    file_tail, host_separator_on, is_host_separator, is_local_path_on, lemma_tail_start, tail_start,
};
use crate::shell::{
    append_escaped_arg_on, as_file_arg, lemma_sh_reads_empty, lemma_sh_reads_plain,
    lemma_sh_reads_with_arg, sh_reads_as, sh_safe_arg, with_arg, with_arg_on, Platform,
};
use crate::text::{
    lemma_ascii_byte_is_char, lemma_ascii_char_in_bytes, lemma_small_bytes_are_ascii, opt_view,
    utf8_of,
};

verus! {

broadcast use vstd::utf8::group_utf8_lib;

/// Which database is on the remote host.
#[derive(Clone, Copy, Debug, PartialEq, Eq, Structural)]
pub enum RemoteSide {
    Origin,
    Replica,
}

/// A sync in which one database is on a remote host, reached over SSH.
pub struct RemoteSync {
    pub side: RemoteSide,
    /// `HOST` or `USER@HOST`.
    pub host: String,
    /// The database's path on the remote host.
    pub remote_path: String,
    /// The file name of the local database.
    pub local_tail: String,
    pub ssh: String,
    pub port: i32,
    pub exe: String,
    pub remote_err_file: Option<String>,
    pub remote_debug_file: Option<String>,
    pub wal_only: bool,
    pub comm_check: bool,
    /// The shell that runs the command line.
    pub platform: Platform,
}

/// `RemoteSync` as plain values.
pub struct RemoteSyncModel {
    pub side: RemoteSide,
    pub host: Seq<char>,
    pub remote_path: Seq<char>,
    pub local_tail: Seq<char>,
    pub ssh: Seq<char>,
    pub port: i32,
    pub exe: Seq<char>,
    pub remote_err_file: Option<Seq<char>>,
    pub remote_debug_file: Option<Seq<char>>,
    pub wal_only: bool,
    pub comm_check: bool,
    pub platform: Platform,
}

impl View for RemoteSync {
    type V = RemoteSyncModel;

    open spec fn view(&self) -> RemoteSyncModel {
        RemoteSyncModel {
            side: self.side,
            host: self.host@,
            remote_path: self.remote_path@,
            local_tail: self.local_tail@,
            ssh: self.ssh@,
            port: self.port,
            exe: self.exe@,
            remote_err_file: opt_view(self.remote_err_file),
            remote_debug_file: opt_view(self.remote_debug_file),
            wal_only: self.wal_only,
            comm_check: self.comm_check,
            platform: self.platform,
        }
    }
}

/// The option that tells the remote program which side it plays.
pub open spec fn side_flag(side: RemoteSide) -> Seq<char> {
    match side {
        RemoteSide::Origin => "--origin"@,
        RemoteSide::Replica => "--replica"@,
    }
}

/// The command line of attempt `retry` (0 for the first) of a remote session:
/// SSH to the host, the program with its side and options, the remote path
/// and the local file name in the order of origin then replica, and on the
/// first attempt, unless verbose, the remote errors discarded.
pub open spec fn remote_command(job: RemoteSyncModel, retry: nat, verbose: u8) -> Seq<char> {
    let s1 = ssh_prefix(Seq::empty(), job.ssh, job.port as int, job.host, retry > 0, job.platform);
    let s4 = remote_program_part(s1, job);
    if verbosity_with(verbose, job.comm_check) < 2 && retry == 0 {
        with_arg_on(s4, "2>/dev/null"@, false, job.platform)
    } else {
        s4
    }
}

/// `s` with the program part of a remote command line appended: the program,
/// its side, the options, and the remote path and the local file name in the
/// order of origin then replica.
pub open spec fn remote_program_part(s: Seq<char>, job: RemoteSyncModel) -> Seq<char> {
    let pf = job.platform;
    let s2 = with_arg_on(with_arg_on(s, job.exe, true, pf), side_flag(job.side), false, pf);
    let s3 = file_opts(
        s2,
        job.remote_err_file,
        job.remote_debug_file,
        job.wal_only,
        job.comm_check,
        pf,
    );
    match job.side {
        RemoteSide::Origin => with_arg_on(
            with_arg_on(s3, job.remote_path, true, pf),
            job.local_tail,
            true,
            pf,
        ),
        RemoteSide::Replica => with_arg_on(
            with_arg_on(s3, job.local_tail, true, pf),
            job.remote_path,
            true,
            pf,
        ),
    }
}

/// What to do when the SSH process of a remote session could not be started.
pub enum SpawnFailure {
    /// Give up: the sync fails.
    GiveUp,
    /// Try once more with the `PATH=` argument; `announce` says whether to
    /// tell the user.
    Retry { announce: bool },
}

/// What to do once the local side of a remote session has run.
pub enum SessionEnd {
    /// No hash was sent, so the remote program likely did not start: try once
    /// more with the `PATH=` argument.
    Retry,
    /// The session is over.
    Finished,
}

/// The attempts of a remote session: at most two, the second with a `PATH=`
/// argument.
pub struct RemoteSession {
    retry: u32,
}

impl RemoteSession {
    #[verifier::type_invariant]
    spec fn at_most_one_retry(self) -> bool {
        self.retry <= 1
    }

    /// The number of attempts made before the current one.
    pub closed spec fn retries(self) -> nat {
        self.retry as nat
    }

    /// A session before its first attempt.
    pub fn new() -> (s: Self)
        ensures
            s.retries() == 0,
    {
        RemoteSession { retry: 0 }
    }

    /// The number of attempts made before the current one.
    pub fn retry_count(&self) -> (n: u32)
        ensures
            n == self.retries(),
            n <= 1,
    {
        proof {
            use_type_invariant(self);
        }
        self.retry
    }

    /// The command line of the current attempt; `--commcheck` raises the
    /// verbosity to at least 1.
    pub fn command(&self, job: &RemoteSync, verbose: &mut u8) -> (cmd: String)
        ensures
            cmd@ == remote_command(job@, self.retries(), *old(verbose)),
            *final(verbose) == verbosity_with(*old(verbose), job.comm_check),
    {
        let mut cmd = String::new();
        build_ssh_prefix(
            &mut cmd,
            job.ssh.as_str(),
            job.port,
            job.host.as_str(),
            self.retry > 0,
            job.platform,
        );
        append_escaped_arg_on(&mut cmd, job.exe.as_str(), true, job.platform);
        match job.side {
            RemoteSide::Origin => {
                append_escaped_arg_on(&mut cmd, "--origin", false, job.platform);
            },
            RemoteSide::Replica => {
                append_escaped_arg_on(&mut cmd, "--replica", false, job.platform);
            },
        }
        append_file_opts(
            &mut cmd,
            &job.remote_err_file,
            &job.remote_debug_file,
            job.wal_only,
            job.comm_check,
            verbose,
            job.platform,
        );
        match job.side {
            RemoteSide::Origin => {
                append_escaped_arg_on(&mut cmd, job.remote_path.as_str(), true, job.platform);
                append_escaped_arg_on(&mut cmd, job.local_tail.as_str(), true, job.platform);
            },
            RemoteSide::Replica => {
                append_escaped_arg_on(&mut cmd, job.local_tail.as_str(), true, job.platform);
                append_escaped_arg_on(&mut cmd, job.remote_path.as_str(), true, job.platform);
            },
        }
        if *verbose < 2 && self.retry == 0 {
            append_escaped_arg_on(&mut cmd, "2>/dev/null", false, job.platform);
        }
        cmd
    }

    /// The SSH process could not be started: give up after a retry, else
    /// retry, telling the user where `verbose` is 2 or more.
    pub fn spawn_failed(&mut self, verbose: u8) -> (r: SpawnFailure)
        ensures
            old(self).retries() >= 1 ==> r is GiveUp && final(self).retries() == old(self).retries(),
            old(self).retries() == 0 ==> r == (SpawnFailure::Retry { announce: verbose >= 2 })
                && final(self).retries() == 1,
    {
        proof {
            use_type_invariant(&*self);
        }
        if self.retry >= 1 {
            SpawnFailure::GiveUp
        } else {
            self.retry = self.retry + 1;
            SpawnFailure::Retry { announce: verbose >= 2 }
        }
    }

    /// The local side has run, having sent `n_hash_sent` hashes: where none
    /// was sent on the first attempt, retry; else the session is over.
    pub fn session_finished(&mut self, n_hash_sent: u64) -> (r: SessionEnd)
        ensures
            n_hash_sent == 0 && old(self).retries() == 0 ==> r is Retry && final(self).retries() == 1,
            !(n_hash_sent == 0 && old(self).retries() == 0) ==> r is Finished && final(self).retries()
                == old(self).retries(),
    {
        proof {
            use_type_invariant(&*self);
        }
        if n_hash_sent == 0 && self.retry == 0 {
            self.retry = self.retry + 1;
            SessionEnd::Retry
        } else {
            SessionEnd::Finished
        }
    }
}

/// Every argument of a remote job that comes from the user is one that `sh`
/// reads back.
pub open spec fn remote_job_safe(job: RemoteSyncModel) -> bool {
    &&& sh_safe_arg(job.ssh)
    &&& sh_safe_arg(job.host)
    &&& sh_safe_arg(job.exe)
    &&& sh_safe_arg(job.remote_path)
    &&& sh_safe_arg(job.local_tail)
    &&& opt_safe(job.remote_err_file)
    &&& opt_safe(job.remote_debug_file)
}

/// The arguments that the remote command line of attempt `retry` passes, as
/// `sh` reads it: the SSH program; `-p PORT` where a port is given; `-e none`;
/// the host; on a retry the `PATH=` setting; the program and its side; the
/// options; the remote path and the local file name, origin first; and on the
/// first attempt below verbosity 2, the redirection of remote errors.
pub open spec fn remote_args_read(job: RemoteSyncModel, retry: nat, verbose: u8) -> Seq<Seq<char>> {
    let quiet = if verbose < 2 && retry == 0 {
        seq!["2>/dev/null"@]
    } else {
        Seq::empty()
    };
    ssh_args_read(job.ssh, job.port as int, job.host, retry > 0) + program_args_read(job) + quiet
}

/// The words of the session's command lines are legal shell arguments.
pub proof fn lemma_session_words_safe()
    ensures
        sh_safe_arg("--origin"@),
        sh_safe_arg("--replica"@),
        sh_safe_arg("2>/dev/null"@),
{
    reveal(sh_safe_arg);
    reveal_strlit("--origin");
    reveal_strlit("--replica");
    reveal_strlit("2>/dev/null");
}

/// The arguments of the SSH part of a command line, as `sh` reads it.
pub open spec fn ssh_args_read(ssh: Seq<char>, port: int, host: Seq<char>, retry: bool) -> Seq<Seq<char>> {
    let p = if port > 0 {
        seq![seq!['-', 'p'], decimal(port as nat)]
    } else {
        Seq::empty()
    };
    let path = if retry {
        seq![path_argument()]
    } else {
        Seq::empty()
    };
    seq![as_file_arg(ssh, true)] + p + seq![seq!['-', 'e'], seq!['n', 'o', 'n', 'e'], host] + path
}

/// The SSH part of a command line for `sh` passes the SSH program, `-p PORT`
/// where a port is given, `-e none`, the host, and on a retry the `PATH=`
/// setting.
pub proof fn lemma_ssh_prefix_reads(ssh: Seq<char>, port: int, host: Seq<char>, retry: bool)
    requires
        sh_safe_arg(ssh),
        sh_safe_arg(host),
    ensures
        sh_reads_as(
            ssh_prefix(Seq::empty(), ssh, port, host, retry, Platform::Posix),
            ssh_args_read(ssh, port, host, retry),
        ),
{
    lemma_option_words_safe();
    lemma_sh_reads_empty();
    let e = Seq::<char>::empty();
    let ea = Seq::<Seq<char>>::empty();
    lemma_sh_reads_with_arg(e, ea, ssh, true);
    let s1 = with_arg_on(e, ssh, true, Platform::Posix);
    let a1 = ea.push(as_file_arg(ssh, true));
    let dash_e = seq!['-', 'e'];
    let none = seq!['n', 'o', 'n', 'e'];
    let s_none = s1 + port_option(port) + seq![' ', '-', 'e', ' ', 'n', 'o', 'n', 'e'];
    let pw = if port > 0 {
        seq![seq!['-', 'p'], decimal(port as nat)]
    } else {
        Seq::empty()
    };
    let a_p = a1 + pw;
    if port > 0 {
        let d = decimal(port as nat);
        lemma_decimal_is_digits(port as nat);
        lemma_sh_reads_plain(s1, a1, seq!['-', 'p']);
        let t1 = s1 + seq![' '] + seq!['-', 'p'];
        lemma_sh_reads_plain(t1, a1.push(seq!['-', 'p']), d);
        assert(a1.push(seq!['-', 'p']).push(d) =~= a_p);
        assert(s1 + port_option(port) =~= t1 + seq![' '] + d);
    } else {
        assert(a_p =~= a1);
        assert(s1 + port_option(port) =~= s1);
    }
    let t2 = s1 + port_option(port);
    lemma_sh_reads_plain(t2, a_p, dash_e);
    lemma_sh_reads_plain(t2 + seq![' '] + dash_e, a_p.push(dash_e), none);
    assert(s_none =~= t2 + seq![' '] + dash_e + seq![' '] + none);
    let a_none = a_p.push(dash_e).push(none);
    lemma_sh_reads_with_arg(s_none, a_none, host, false);
    let s_host = with_arg_on(s_none, host, false, Platform::Posix);
    let a_host = a_none.push(host);
    if retry {
        lemma_sh_reads_with_arg(s_host, a_host, path_argument(), false);
        assert(a_host.push(path_argument()) =~= ssh_args_read(ssh, port, host, retry));
    } else {
        assert(a_host =~= ssh_args_read(ssh, port, host, retry));
    }
}

/// The arguments of the program part of a remote command line, as `sh`
/// reads it.
pub open spec fn program_args_read(job: RemoteSyncModel) -> Seq<Seq<char>> {
    let (side, dbs) = match job.side {
        RemoteSide::Origin => (
            "--origin"@,
            seq![as_file_arg(job.remote_path, true), as_file_arg(job.local_tail, true)],
        ),
        RemoteSide::Replica => (
            "--replica"@,
            seq![as_file_arg(job.local_tail, true), as_file_arg(job.remote_path, true)],
        ),
    };
    seq![as_file_arg(job.exe, true), side] + option_args(
        job.remote_err_file,
        job.remote_debug_file,
        job.wal_only,
        job.comm_check,
    ) + dbs
}

proof fn lemma_program_part_reads(s: Seq<char>, args: Seq<Seq<char>>, job: RemoteSyncModel)
    requires
        job.platform == Platform::Posix,
        remote_job_safe(job),
        sh_reads_as(s, args),
    ensures
        sh_reads_as(remote_program_part(s, job), args + program_args_read(job)),
{
    lemma_session_words_safe();
    let side = side_flag(job.side);
    lemma_sh_reads_with_arg(s, args, job.exe, true);
    let s_exe = with_arg_on(s, job.exe, true, Platform::Posix);
    let a_exe = args.push(as_file_arg(job.exe, true));
    lemma_sh_reads_with_arg(s_exe, a_exe, side, false);
    let s2 = with_arg_on(s_exe, side, false, Platform::Posix);
    let a2 = a_exe.push(side);
    lemma_file_opts_read(
        s2,
        a2,
        job.remote_err_file,
        job.remote_debug_file,
        job.wal_only,
        job.comm_check,
    );
    let s3 = file_opts(
        s2,
        job.remote_err_file,
        job.remote_debug_file,
        job.wal_only,
        job.comm_check,
        Platform::Posix,
    );
    let a3 = a2 + option_args(job.remote_err_file, job.remote_debug_file, job.wal_only, job.comm_check);
    let (first, second) = match job.side {
        RemoteSide::Origin => (job.remote_path, job.local_tail),
        RemoteSide::Replica => (job.local_tail, job.remote_path),
    };
    lemma_sh_reads_with_arg(s3, a3, first, true);
    let s3a = with_arg_on(s3, first, true, Platform::Posix);
    lemma_sh_reads_with_arg(s3a, a3.push(as_file_arg(first, true)), second, true);
    assert(a3.push(as_file_arg(first, true)).push(as_file_arg(second, true)) =~= args
        + program_args_read(job));
}

/// A remote command line for `sh` passes exactly the job's settings, in
/// order: the SSH program, its port, the host, the program, the side, the
/// options, and the two databases, as `remote_args_read` lists them.
pub proof fn lemma_remote_command_reads(job: RemoteSyncModel, retry: nat, verbose: u8)
    requires
        job.platform == Platform::Posix,
        remote_job_safe(job),
    ensures
        sh_reads_as(remote_command(job, retry, verbose), remote_args_read(job, retry, verbose)),
{
    lemma_session_words_safe();
    lemma_ssh_prefix_reads(job.ssh, job.port as int, job.host, retry > 0);
    let s_pre = ssh_prefix(Seq::empty(), job.ssh, job.port as int, job.host, retry > 0, Platform::Posix);
    let a_pre = ssh_args_read(job.ssh, job.port as int, job.host, retry > 0);
    lemma_program_part_reads(s_pre, a_pre, job);
    let s4 = remote_program_part(s_pre, job);
    let a4 = a_pre + program_args_read(job);
    assert(remote_command(job, retry, verbose) == if verbose < 2 && retry == 0 {
        with_arg_on(s4, "2>/dev/null"@, false, Platform::Posix)
    } else {
        s4
    });
    if verbose < 2 && retry == 0 {
        lemma_sh_reads_with_arg(s4, a4, "2>/dev/null"@, false);
        assert(a4.push("2>/dev/null"@) =~= remote_args_read(job, retry, verbose));
    } else {
        assert(a4 + Seq::<Seq<char>>::empty() =~= a4);
    }
}

/// On any platform, a remote command line carries the job's port: where one
/// is given, the line begins with the SSH program, `-p` and the port.
#[verifier::rlimit(50)]
pub proof fn lemma_remote_command_port(job: RemoteSyncModel, retry: nat, verbose: u8)
    requires
        job.port > 0,
    ensures
        (with_arg_on(Seq::empty(), job.ssh, true, job.platform) + seq![' ', '-', 'p', ' ']
            + decimal(job.port as nat)).is_prefix_of(remote_command(job, retry, verbose)),
{
    let pf = job.platform;
    let p = with_arg_on(Seq::empty(), job.ssh, true, pf) + seq![' ', '-', 'p', ' '] + decimal(
        job.port as nat,
    );
    let s1 = ssh_prefix(Seq::empty(), job.ssh, job.port as int, job.host, retry > 0, pf);
    lemma_ssh_prefix_port(job.ssh, job.port as int, job.host, retry > 0, pf);
    let s_exe = with_arg_on(s1, job.exe, true, pf);
    lemma_with_arg_on_extends(s1, job.exe, true, pf);
    let s2 = with_arg_on(s_exe, side_flag(job.side), false, pf);
    lemma_with_arg_on_extends(s_exe, side_flag(job.side), false, pf);
    lemma_prefix_trans(s1, s_exe, s2);
    let s3 = file_opts(
        s2,
        job.remote_err_file,
        job.remote_debug_file,
        job.wal_only,
        job.comm_check,
        pf,
    );
    lemma_file_opts_extends(
        s2,
        job.remote_err_file,
        job.remote_debug_file,
        job.wal_only,
        job.comm_check,
        pf,
    );
    lemma_prefix_trans(s1, s2, s3);
    let (first, second) = match job.side {
        RemoteSide::Origin => (job.remote_path, job.local_tail),
        RemoteSide::Replica => (job.local_tail, job.remote_path),
    };
    let s3a = with_arg_on(s3, first, true, pf);
    lemma_with_arg_on_extends(s3, first, true, pf);
    let s4 = with_arg_on(s3a, second, true, pf);
    lemma_with_arg_on_extends(s3a, second, true, pf);
    lemma_prefix_trans(s3, s3a, s4);
    lemma_prefix_trans(s1, s3, s4);
    lemma_with_arg_on_extends(s4, "2>/dev/null"@, false, pf);
    let r = remote_command(job, retry, verbose);
    assert(s4.is_prefix_of(r));
    lemma_prefix_trans(s1, s4, r);
    lemma_prefix_trans(p, s1, r);
}

/// The host part of a remote database name whose separator is at byte `p`.
pub open spec fn host_part(name: Seq<char>, p: int) -> Seq<char> {
    decode_utf8(utf8_of(name).subrange(0, p))
}

/// The path part of a remote database name whose separator is at byte `p`.
pub open spec fn path_part(name: Seq<char>, p: int) -> Seq<char> {
    decode_utf8(utf8_of(name).subrange(p + 1, utf8_of(name).len() as int))
}

/// The file name at the end of a database name.
pub open spec fn tail_of(name: Seq<char>) -> Seq<char> {
    decode_utf8(utf8_of(name).subrange(tail_start(utf8_of(name)), utf8_of(name).len() as int))
}

/// The byte index of the `:` of a remote database name on `platform`; `None`
/// for a local one.
pub open spec fn remote_at(name: Seq<char>, platform: Platform) -> Option<int> {
    if is_local_path_on(utf8_of(name), platform) {
        None
    } else if exists|p: int| is_host_separator(utf8_of(name), p) {
        Some(choose|p: int| is_host_separator(utf8_of(name), p))
    } else {
        None
    }
}

/// A name has at most one host separator.
pub proof fn lemma_host_separator_unique(b: Seq<u8>, p: int, q: int)
    requires
        is_host_separator(b, p),
        is_host_separator(b, q),
    ensures
        p == q,
{
    if p < q {
        assert(b[p] != crate::text::COLON);
    } else if q < p {
        assert(b[q] != crate::text::COLON);
    }
}

/// Splitting a remote name loses nothing: the host, a `:`, and the path
/// make up the name again.
pub proof fn lemma_remote_name_split(name: Seq<char>, p: int)
    requires
        is_host_separator(utf8_of(name), p),
    ensures
        host_part(name, p) + seq![':'] + path_part(name, p) == name,
{
    let b = utf8_of(name);
    lemma_ascii_byte_is_char(b, p);
    let host = host_part(name, p);
    let rest = decode_utf8(b.subrange(p, b.len() as int));
    let path = path_part(name, p);
    valid_utf8_split(b, p);
    decode_utf8_split(b, p);
    let rb = b.subrange(p, b.len() as int);
    lemma_ascii_byte_is_char(rb, 0);
    decode_utf8_split(rb, 1);
    valid_utf8_split(rb, 1);
    assert(rb.subrange(1, rb.len() as int) =~= b.subrange(p + 1, b.len() as int));
    let colon = decode_utf8(rb.subrange(0, 1));
    assert(encode_utf8(colon) == rb.subrange(0, 1));
    assert forall|i: int| 0 <= i < utf8_of(colon).len() implies utf8_of(colon)[i] < 0x80 by {}
    lemma_small_bytes_are_ascii(colon);
    assert(colon.len() == 1);
    assert(colon[0] as u8 == 0x3a);
    assert(colon =~= seq![':']);
}

/// The local file name is the last component of a database name: the name is
/// a directory part, empty or ending in `/`, followed by the file name, which
/// holds no `/`.
pub proof fn lemma_tail_of(name: Seq<char>)
    ensures
        exists|dir: Seq<char>| name == dir + tail_of(name) && (dir.len() == 0 || dir.last() == '/'),
        !tail_of(name).contains('/'),
{
    let b = utf8_of(name);
    lemma_tail_start(b);
    let k = tail_start(b);
    if k == 0 {
        is_char_boundary_start_end_of_seq(b);
    } else {
        lemma_ascii_byte_is_char(b, k - 1);
    }
    decode_utf8_split(b, k);
    valid_utf8_split(b, k);
    let db = b.subrange(0, k);
    let dir = decode_utf8(db);
    let t = tail_of(name);
    assert(decode_utf8(b) == name);
    assert(name == dir + t);
    if k > 0 {
        assert(db[k - 1] == b[k - 1]);
        lemma_ascii_byte_is_char(db, k - 1);
        decode_utf8_split(db, k - 1);
        valid_utf8_split(db, k - 1);
        assert(db.subrange(k - 1, db.len() as int) =~= seq![0x2fu8]);
        let sl = decode_utf8(db.subrange(k - 1, db.len() as int));
        assert(encode_utf8(sl) == db.subrange(k - 1, db.len() as int));
        assert forall|i: int| 0 <= i < utf8_of(sl).len() implies utf8_of(sl)[i] < 0x80 by {}
        lemma_small_bytes_are_ascii(sl);
        assert(sl.len() == 1);
        assert(sl[0] as u8 == 0x2f);
        assert(sl[0] == '/');
        assert(dir.last() == '/');
    } else {
        assert(db =~= Seq::<u8>::empty());
        assert(dir =~= Seq::<char>::empty());
    }
    assert(name == dir + t && (dir.len() == 0 || dir.last() == '/'));
    if t.contains('/') {
        let j = choose|j: int| 0 <= j < t.len() && t[j] == '/';
        lemma_ascii_char_in_bytes(t, j);
        valid_utf8_split(b, k);
        assert(encode_utf8(t) == b.subrange(k, b.len() as int));
        let i = choose|i: int| 0 <= i < utf8_of(t).len() && utf8_of(t)[i] == t[j] as u8;
        assert(b[k + i] == 0x2f);
    }
}

/// The host of a remote name holds no `:`, `/` or `\`.
pub proof fn lemma_host_part_clean(name: Seq<char>, p: int)
    requires
        is_host_separator(utf8_of(name), p),
    ensures
        !host_part(name, p).contains(':'),
        !host_part(name, p).contains('/'),
        !host_part(name, p).contains('\\'),
{
    let b = utf8_of(name);
    lemma_ascii_byte_is_char(b, p);
    valid_utf8_split(b, p);
    let h = host_part(name, p);
    assert(encode_utf8(h) == b.subrange(0, p));
    if h.contains(':') || h.contains('/') || h.contains('\\') {
        let j = choose|j: int| 0 <= j < h.len() && (h[j] == ':' || h[j] == '/' || h[j] == '\\');
        lemma_ascii_char_in_bytes(h, j);
        let i = choose|i: int| 0 <= i < utf8_of(h).len() && utf8_of(h)[i] == h[j] as u8;
        assert(b[i] == utf8_of(h)[i]);
    }
}

/// `name` names a local database on `platform`.
pub open spec fn is_local_name(name: Seq<char>, platform: Platform) -> bool {
    is_local_path_on(utf8_of(name), platform) || forall|p: int|
        !is_host_separator(utf8_of(name), p)
}

/// A remote session of a plan keeps the user's settings, takes its host and
/// path from the remote name (the host, a `:` and the path make the name
/// again, and the host holds no `:`, `/` or `\`), and takes its file name
/// from the local name (its last component).
pub open spec fn remote_job_of(j: RemoteSyncModel, o: OptionsModel, platform: Platform) -> bool {
    let (remote, local) = match j.side {
        RemoteSide::Origin => (o.origin.unwrap(), o.replica.unwrap()),
        RemoteSide::Replica => (o.replica.unwrap(), o.origin.unwrap()),
    };
    &&& j.ssh == o.ssh
    &&& j.port == o.port
    &&& j.exe == o.exe
    &&& j.remote_err_file == o.remote_err_file
    &&& j.remote_debug_file == o.remote_debug_file
    &&& j.wal_only == o.wal_only
    &&& j.comm_check == o.comm_check
    &&& j.platform == platform
    &&& j.host + seq![':'] + j.remote_path == remote
    &&& !j.host.contains(':') && !j.host.contains('/') && !j.host.contains('\\')
    &&& !is_local_name(remote, platform)
    &&& (exists|dir: Seq<char>|
        local == dir + j.local_tail && (dir.len() == 0 || dir.last() == '/'))
    &&& !j.local_tail.contains('/')
    &&& (j.side == RemoteSide::Replica ==> is_local_name(local, platform))
}

/// What the plan is for: `--origin` and `--replica` serve a side; otherwise
/// a remote origin or replica keeps every setting and both names, two local
/// names sync locally, and two remote names are refused.
pub proof fn lemma_plan_keeps_settings(o: OptionsModel, platform: Platform)
    requires
        o.origin is Some,
        o.replica is Some,
    ensures
        match sync_plan(o, platform) {
            Ok(SyncPlanModel::ServeOrigin) => o.serve_origin,
            Ok(SyncPlanModel::ServeReplica) => !o.serve_origin && o.serve_replica,
            Ok(SyncPlanModel::Remote(j)) => !o.serve_origin && !o.serve_replica && remote_job_of(
                j,
                o,
                platform,
            ),
            Ok(SyncPlanModel::Local) => !o.serve_origin && !o.serve_replica && is_local_name(
                o.origin.unwrap(),
                platform,
            ) && is_local_name(o.replica.unwrap(), platform),
            Err(PlanError::BothRemote) => !o.serve_origin && !o.serve_replica && !is_local_name(
                o.origin.unwrap(),
                platform,
            ) && !is_local_name(o.replica.unwrap(), platform),
        },
{
    let origin = o.origin.unwrap();
    let replica = o.replica.unwrap();
    if !o.serve_origin && !o.serve_replica {
        match remote_at(origin, platform) {
            Some(p) => {
                let q = choose|q: int| is_host_separator(utf8_of(origin), q);
                assert(is_host_separator(utf8_of(origin), q));
                lemma_remote_name_split(origin, p);
                lemma_host_part_clean(origin, p);
                lemma_tail_of(replica);
            },
            None => {
                match remote_at(replica, platform) {
                    Some(p) => {
                        let q = choose|q: int| is_host_separator(utf8_of(replica), q);
                        assert(is_host_separator(utf8_of(replica), q));
                        lemma_remote_name_split(replica, p);
                        lemma_host_part_clean(replica, p);
                        lemma_tail_of(origin);
                    },
                    None => {},
                }
            },
        }
    }
}

/// Splits the remote name `name` at its separator `p` into host and path.
pub fn split_remote_name(name: &str, p: usize) -> (r: (String, String))
    requires
        is_host_separator(name.spec_bytes(), p as int),
    ensures
        r.0@ == host_part(name@, p as int),
        r.1@ == path_part(name@, p as int),
{
    let ghost b = name.spec_bytes();
    proof {
        lemma_ascii_byte_is_char(b, p as int);
        valid_utf8_split(b, p as int);
        let rb = b.subrange(p as int, b.len() as int);
        lemma_ascii_byte_is_char(rb, 0);
    }
    let (host, rest) = name.split_at(p);
    let (_, path) = rest.split_at(1);
    proof {
        assert(path.spec_bytes() =~= b.subrange(p + 1, b.len() as int));
    }
    (host.to_owned(), path.to_owned())
}

/// Why no sync can be run.
#[derive(Clone, Copy, Debug, PartialEq, Eq, Structural)]
pub enum PlanError {
    /// Both databases are remote; at least one must be local.
    BothRemote,
}

/// Which side this process plays.
pub enum SyncPlan {
    /// `--origin`: serve the origin side over standard input and output.
    ServeOrigin,
    /// `--replica`: serve the replica side over standard input and output.
    ServeReplica,
    /// One database is remote.
    Remote(RemoteSync),
    /// Both databases are local: start this program again as the replica.
    Local,
}

/// `SyncPlan` as plain values.
pub enum SyncPlanModel {
    ServeOrigin,
    ServeReplica,
    Remote(RemoteSyncModel),
    Local,
}

impl View for SyncPlan {
    type V = SyncPlanModel;

    open spec fn view(&self) -> SyncPlanModel {
        match self {
            SyncPlan::ServeOrigin => SyncPlanModel::ServeOrigin,
            SyncPlan::ServeReplica => SyncPlanModel::ServeReplica,
            SyncPlan::Remote(job) => SyncPlanModel::Remote(job@),
            SyncPlan::Local => SyncPlanModel::Local,
        }
    }
}

/// The remote session for settings `o`.
pub open spec fn remote_job(
    o: OptionsModel,
    platform: Platform,
    side: RemoteSide,
    host: Seq<char>,
    remote_path: Seq<char>,
    local_tail: Seq<char>,
) -> RemoteSyncModel {
    RemoteSyncModel {
        side,
        host,
        remote_path,
        local_tail,
        ssh: o.ssh,
        port: o.port,
        exe: o.exe,
        remote_err_file: o.remote_err_file,
        remote_debug_file: o.remote_debug_file,
        wal_only: o.wal_only,
        comm_check: o.comm_check,
        platform,
    }
}

/// The sync that settings `o` ask for: a served side where `--origin` or
/// `--replica` is given; else a remote origin, a remote replica, or two local
/// databases, as the names show; never two remote databases.
pub open spec fn sync_plan(o: OptionsModel, platform: Platform) -> Result<SyncPlanModel, PlanError> {
    if o.serve_origin {
        Ok(SyncPlanModel::ServeOrigin)
    } else if o.serve_replica {
        Ok(SyncPlanModel::ServeReplica)
    } else {
        let origin = o.origin.unwrap();
        let replica = o.replica.unwrap();
        match remote_at(origin, platform) {
            Some(p) => if remote_at(replica, platform) is Some {
                Err(PlanError::BothRemote)
            } else {
                Ok(
                    SyncPlanModel::Remote(
                        remote_job(
                            o,
                            platform,
                            RemoteSide::Origin,
                            host_part(origin, p),
                            path_part(origin, p),
                            tail_of(replica),
                        ),
                    ),
                )
            },
            None => match remote_at(replica, platform) {
                Some(p) => Ok(
                    SyncPlanModel::Remote(
                        remote_job(
                            o,
                            platform,
                            RemoteSide::Replica,
                            host_part(replica, p),
                            path_part(replica, p),
                            tail_of(origin),
                        ),
                    ),
                ),
                None => Ok(SyncPlanModel::Local),
            },
        }
    }
}

fn local_tail(name: &str) -> (r: String)
    ensures
        r@ == tail_of(name@),
{
    let t = file_tail(name);
    proof {
        assert(decode_utf8(encode_utf8(t@)) == t@);
    }
    t.to_owned()
}

fn remote_sync(
    o: &Options,
    platform: Platform,
    side: RemoteSide,
    name: &str,
    p: usize,
    local: &str,
) -> (r: RemoteSync)
    requires
        is_host_separator(name.spec_bytes(), p as int),
    ensures
        r@ == remote_job(
            o@,
            platform,
            side,
            host_part(name@, p as int),
            path_part(name@, p as int),
            tail_of(local@),
        ),
{
    let (host, remote_path) = split_remote_name(name, p);
    RemoteSync {
        side,
        host,
        remote_path,
        local_tail: local_tail(local),
        ssh: o.ssh.clone(),
        port: o.port,
        exe: o.exe.clone(),
        remote_err_file: o.remote_err_file.clone(),
        remote_debug_file: o.remote_debug_file.clone(),
        wal_only: o.wal_only,
        comm_check: o.comm_check,
        platform,
    }
}

/// Decides which side this process plays, for settings that name both
/// databases, with the command lines written for `platform`.
pub fn plan_sync(o: &Options, platform: Platform) -> (r: Result<SyncPlan, PlanError>)
    requires
        o@.origin is Some,
        o@.replica is Some,
    ensures
        match r {
            Ok(plan) => sync_plan(o@, platform) == Ok::<SyncPlanModel, PlanError>(plan@),
            Err(e) => sync_plan(o@, platform) == Err::<SyncPlanModel, PlanError>(e),
        },
{
    if o.serve_origin {
        return Ok(SyncPlan::ServeOrigin);
    }
    if o.serve_replica {
        return Ok(SyncPlan::ServeReplica);
    }
    let origin = o.origin.as_ref().unwrap().as_str();
    let replica = o.replica.as_ref().unwrap().as_str();
    let ghost ov = origin@;
    let ghost rv = replica@;
    assert(ov == o@.origin.unwrap());
    assert(rv == o@.replica.unwrap());
    assert(origin.spec_bytes() == utf8_of(ov));
    assert(replica.spec_bytes() == utf8_of(rv));
    match host_separator_on(origin, platform) {
        Some(p) => {
            proof {
                let q = choose|q: int| is_host_separator(utf8_of(ov), q);
                lemma_host_separator_unique(utf8_of(ov), p as int, q);
                assert(remote_at(ov, platform) == Some(p as int));
            }
            match host_separator_on(replica, platform) {
                Some(_) => Err(PlanError::BothRemote),
                None => {
                    assert(remote_at(rv, platform) is None);
                    Ok(SyncPlan::Remote(remote_sync(o, platform, RemoteSide::Origin, origin, p, replica)))
                },
            }
        },
        None => match host_separator_on(replica, platform) {
            Some(p) => {
                assert(remote_at(ov, platform) is None);
                proof {
                    let q = choose|q: int| is_host_separator(utf8_of(rv), q);
                    lemma_host_separator_unique(utf8_of(rv), p as int, q);
                    assert(remote_at(rv, platform) == Some(p as int));
                }
                Ok(SyncPlan::Remote(remote_sync(o, platform, RemoteSide::Replica, replica, p, origin)))
            },
            None => {
                assert(remote_at(ov, platform) is None);
                assert(remote_at(rv, platform) is None);
                Ok(SyncPlan::Local)
            },
        },
    }
}

/// The command line that starts this program again as the replica, for two
/// local databases.
pub open spec fn local_command(
    exe: Seq<char>,
    origin: Seq<char>,
    replica: Seq<char>,
    o: OptionsModel,
    platform: Platform,
) -> Seq<char> {
    let s1 = with_arg_on(
        with_arg_on(Seq::empty(), exe, true, platform),
        "--replica"@,
        false,
        platform,
    );
    let s2 = file_opts(
        s1,
        o.remote_err_file,
        o.remote_debug_file,
        o.wal_only,
        o.comm_check,
        platform,
    );
    with_arg_on(with_arg_on(s2, origin, true, platform), replica, true, platform)
}

/// Builds the command line that starts this program (`exe`) again as the
/// replica; `--commcheck` raises the verbosity to at least 1.
pub fn local_replica_command(
    exe: &str,
    origin: &str,
    replica: &str,
    o: &Options,
    verbose: &mut u8,
    platform: Platform,
) -> (cmd: String)
    ensures
        cmd@ == local_command(exe@, origin@, replica@, o@, platform),
        *final(verbose) == verbosity_with(*old(verbose), o.comm_check),
{
    let mut cmd = String::new();
    append_escaped_arg_on(&mut cmd, exe, true, platform);
    append_escaped_arg_on(&mut cmd, "--replica", false, platform);
    append_file_opts(
        &mut cmd,
        &o.remote_err_file,
        &o.remote_debug_file,
        o.wal_only,
        o.comm_check,
        verbose,
        platform,
    );
    append_escaped_arg_on(&mut cmd, origin, true, platform);
    append_escaped_arg_on(&mut cmd, replica, true, platform);
    cmd
}

/// The optional string as a list of none or one.
pub open spec fn opt_seq(o: Option<Seq<char>>) -> Seq<Seq<char>> {
    match o {
        Some(x) => seq![x],
        None => Seq::empty(),
    }
}

/// The arguments of a remote command line that come from the user, in the
/// order that the command line holds them: the SSH program, the host, the
/// program, its error and debug files, and the two database paths.
pub open spec fn remote_user_args(job: RemoteSyncModel) -> Seq<Seq<char>> {
    let paths = match job.side {
        RemoteSide::Origin => seq![job.remote_path, job.local_tail],
        RemoteSide::Replica => seq![job.local_tail, job.remote_path],
    };
    seq![job.ssh, job.host, job.exe] + opt_seq(job.remote_err_file) + opt_seq(
        job.remote_debug_file,
    ) + paths
}

/// The views of a list of strings.
pub open spec fn views(v: Seq<String>) -> Seq<Seq<char>> {
    v.map_values(|a: String| a@)
}

fn push_opt(v: &mut Vec<String>, o: &Option<String>)
    ensures
        views(final(v)@) == views(old(v)@) + opt_seq(opt_view(*o)),
{
    match o {
        Some(x) => {
            v.push(x.clone());
            assert(views(v@) =~= views(old(v)@) + opt_seq(opt_view(*o)));
        },
        None => {
            assert(views(v@) =~= views(old(v)@) + opt_seq(opt_view(*o)));
        },
    }
}

fn push_string(v: &mut Vec<String>, x: &str)
    ensures
        views(final(v)@) == views(old(v)@).push(x@),
{
    v.push(x.to_owned());
    assert(views(v@) =~= views(old(v)@).push(x@));
}

impl RemoteSync {
    /// The arguments of the remote command line that come from the user, in
    /// command-line order, for the messages about those that cannot be
    /// quoted.
    pub fn user_args(&self) -> (r: Vec<String>)
        ensures
            views(r@) == remote_user_args(self@),
    {
        let mut v: Vec<String> = Vec::new();
        push_string(&mut v, self.ssh.as_str());
        push_string(&mut v, self.host.as_str());
        push_string(&mut v, self.exe.as_str());
        push_opt(&mut v, &self.remote_err_file);
        push_opt(&mut v, &self.remote_debug_file);
        match self.side {
            RemoteSide::Origin => {
                push_string(&mut v, self.remote_path.as_str());
                push_string(&mut v, self.local_tail.as_str());
            },
            RemoteSide::Replica => {
                push_string(&mut v, self.local_tail.as_str());
                push_string(&mut v, self.remote_path.as_str());
            },
        }
        assert(views(v@) =~= remote_user_args(self@));
        v
    }
}

/// The arguments of the local replica's command line that come from the
/// user, in command-line order: the program, the error and debug files, and
/// the two databases.
pub open spec fn local_user_args(
    exe: Seq<char>,
    origin: Seq<char>,
    replica: Seq<char>,
    o: OptionsModel,
) -> Seq<Seq<char>> {
    seq![exe] + opt_seq(o.remote_err_file) + opt_seq(o.remote_debug_file) + seq![origin, replica]
}

/// The arguments of the local replica's command line that come from the
/// user, in command-line order.
pub fn local_command_args(exe: &str, origin: &str, replica: &str, o: &Options) -> (r: Vec<String>)
    ensures
        views(r@) == local_user_args(exe@, origin@, replica@, o@),
{
    let mut v: Vec<String> = Vec::new();
    push_string(&mut v, exe);
    push_opt(&mut v, &o.remote_err_file);
    push_opt(&mut v, &o.remote_debug_file);
    push_string(&mut v, origin);
    push_string(&mut v, replica);
    assert(views(v@) =~= local_user_args(exe@, origin@, replica@, o@));
    v
}

/// The arguments that the local replica's command line passes, as `sh`
/// reads it: the program, `--replica`, the options with the remote error and
/// debug files, and the two databases, origin first.
pub open spec fn local_args_read(
    exe: Seq<char>,
    origin: Seq<char>,
    replica: Seq<char>,
    o: OptionsModel,
) -> Seq<Seq<char>> {
    let (err, debug) = (o.remote_err_file, o.remote_debug_file);
    seq![as_file_arg(exe, true), "--replica"@] + option_args(err, debug, o.wal_only, o.comm_check)
        + seq![as_file_arg(origin, true), as_file_arg(replica, true)]
}

/// The local replica's command line for `sh` passes exactly the program,
/// `--replica`, every option asked for with its file, and the two databases.
pub proof fn lemma_local_command_reads(
    exe: Seq<char>,
    origin: Seq<char>,
    replica: Seq<char>,
    o: OptionsModel,
)
    requires
        sh_safe_arg(exe),
        sh_safe_arg(origin),
        sh_safe_arg(replica),
        opt_safe(o.remote_err_file),
        opt_safe(o.remote_debug_file),
    ensures
        sh_reads_as(
            local_command(exe, origin, replica, o, Platform::Posix),
            local_args_read(exe, origin, replica, o),
        ),
{
    lemma_session_words_safe();
    lemma_sh_reads_empty();
    let e = Seq::<char>::empty();
    let ea = Seq::<Seq<char>>::empty();
    lemma_sh_reads_with_arg(e, ea, exe, true);
    let s1 = with_arg_on(e, exe, true, Platform::Posix);
    let a1 = ea.push(as_file_arg(exe, true));
    lemma_sh_reads_with_arg(s1, a1, "--replica"@, false);
    let s2 = with_arg_on(s1, "--replica"@, false, Platform::Posix);
    let a2 = a1.push("--replica"@);
    lemma_file_opts_read(s2, a2, o.remote_err_file, o.remote_debug_file, o.wal_only, o.comm_check);
    let (err, debug) = (o.remote_err_file, o.remote_debug_file);
    let s3 = file_opts(s2, err, debug, o.wal_only, o.comm_check, Platform::Posix);
    let a3 = a2 + option_args(o.remote_err_file, o.remote_debug_file, o.wal_only, o.comm_check);
    lemma_sh_reads_with_arg(s3, a3, origin, true);
    let s4 = with_arg_on(s3, origin, true, Platform::Posix);
    lemma_sh_reads_with_arg(s4, a3.push(as_file_arg(origin, true)), replica, true);
    assert(a3.push(as_file_arg(origin, true)).push(as_file_arg(replica, true)) =~= local_args_read(
        exe,
        origin,
        replica,
        o,
    ));
}

} // verus!
