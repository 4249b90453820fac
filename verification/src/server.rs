//! The secret of a server, and when it makes backups.

use crate::error::Error;
use crate::text;
use ring::rand::SecureRandom;
use vstd::prelude::*;
use vstd::string::*;

verus! {

/// How long a secret that is kept in a file may be.
pub const MAX_SECRET: u64 = 128;

/// How long a new secret is.
pub const NEW_SECRET: usize = 32;

/// Where the secret of a server comes from.
#[derive(Debug)]
pub enum Secret {
    /// It has to be read from its file.
    Read,
    /// It is new and has to be written to its file, which only the owner may read.
    Write(Vec<u8>),
}

/// The error of `ring` when there is no randomness to be had.
#[verifier::external_type_specification]
#[verifier::external_body]
pub struct ExUnspecified(ring::error::Unspecified);

/// `ring::rand::SecureRandom::fill` on as many bytes as are asked for. Which bytes it gives is left
/// to chance.
#[verifier::external_body]
fn random_bytes(n: usize) -> (r: Result<Vec<u8>, ring::error::Unspecified>)
    requires
        n <= isize::MAX,
    ensures
        r is Ok ==> r->Ok_0@.len() == n,
{
    let mut random = vec![0u8; n];
    ring::rand::SystemRandom::new().fill(&mut random).map(|_| random)
}

/// Bytes that were left to chance.
pub closed spec fn is_random(s: Vec<u8>) -> bool {
    exists|r: Result<Vec<u8>, ring::error::Unspecified>| #[trigger]
        call_ensures(random_bytes, (NEW_SECRET,), r) && r == Ok::<
            Vec<u8>,
            ring::error::Unspecified,
        >(s)
}

impl Secret {
    /// The secret that the server uses, given what its file holds.
    pub open spec fn used(self, file: Seq<u8>) -> Seq<u8> {
        match self {
            Secret::Read => file,
            Secret::Write(s) => s@,
        }
    }

    /// What the file holds when the server has its secret.
    pub open spec fn file_after(self, file: Seq<u8>) -> Seq<u8> {
        match self {
            Secret::Read => file,
            Secret::Write(s) => s@,
        }
    }

    /// The secret that the server uses, given what its file was found to hold; a new secret does
    /// not depend on it.
    pub fn into_bytes(self, file: Vec<u8>) -> (r: Vec<u8>)
        ensures
            r@ == self.used(file@),
    {
        match self {
            Secret::Read => file,
            Secret::Write(s) => s,
        }
    }
}

/// Whether a decision on where the secret comes from is right, given the length of its file if
/// there is one.
pub open spec fn secret_decided(file_length: Option<nat>, r: Result<Secret, Error>) -> bool {
    match file_length {
        Some(n) => if n > MAX_SECRET {
            r is Err && r->Err_0 is SecretTooLong
        } else {
            r is Ok && r->Ok_0 is Read
        },
        None => match r {
            Ok(Secret::Write(s)) => s@.len() == NEW_SECRET,
            Ok(_) => false,
            Err(e) => e is NoRandomness,
        },
    }
}

/// Decides where the secret comes from, given the length of its file if there is one: a file that
/// is too long is refused, and without a file a new secret is made.
pub fn generate_server_secret(file_length: Option<u64>) -> (r: Result<Secret, Error>)
    ensures
        secret_decided(
            match file_length {
                Some(n) => Some(n as nat),
                None => None,
            },
            r,
        ),
        r matches Ok(Secret::Write(s)) ==> is_random(s) && file_length is None,
{
    match file_length {
        Some(size) => if size > MAX_SECRET {
            Err(Error::SecretTooLong)
        } else {
            Ok(Secret::Read)
        },
        None => secret_from(random_bytes(NEW_SECRET)),
    }
}

/// A secret that is in a file is used as it stands there, unless it is too long, and the file is
/// left as it is.
pub proof fn secret_in_file_is_used(file: Seq<u8>, r: Result<Secret, Error>)
    requires
        secret_decided(Some(file.len()), r),
    ensures
        r is Ok <==> file.len() <= MAX_SECRET,
        r is Ok ==> r->Ok_0.used(file) == file && r->Ok_0.file_after(file) == file,
        r is Err ==> r->Err_0 is SecretTooLong,
{
}

/// A secret that was made and written to its file has its full length, and is the one that is used
/// when the server starts again.
pub proof fn new_secret_is_read_back(made: Secret, again: Result<Secret, Error>)
    requires
        secret_decided(None, Ok(made)),
        secret_decided(Some(made.file_after(seq![]).len()), again),
    ensures
        made.used(seq![]).len() == NEW_SECRET,
        again is Ok,
        again->Ok_0.used(made.file_after(seq![])) == made.used(seq![]),
        again->Ok_0.file_after(made.file_after(seq![])) == made.file_after(seq![]),
{
}

/// The secret that is made of random bytes, if there were any to be had.
pub fn secret_from(random: Result<Vec<u8>, ring::error::Unspecified>) -> (r: Result<Secret, Error>)
    ensures
        match random {
            Ok(s) => r is Ok && r->Ok_0 == Secret::Write(s),
            Err(_) => r is Err && r->Err_0 is NoRandomness,
        },
{
    match random {
        Ok(s) => Ok(Secret::Write(s)),
        Err(_) => Err(Error::NoRandomness),
    }
}

/// A span of time.
#[derive(Debug, Clone, Copy, PartialEq, Eq, Structural)]
pub struct Delay {
    pub seconds: u64,
    pub nanos: u32,
}

/// The number of nanoseconds in a second.
pub const NANOS: i128 = 1_000_000_000;

/// How long to wait for a time that is `left` nanoseconds away: a moment if it has passed, and
/// forever if there is none.
pub open spec fn delay_for(left: Option<i128>) -> Delay {
    match left {
        Some(n) => if n < 0 {
            Delay { seconds: 0, nanos: 100_000_000 }
        } else {
            Delay { seconds: (n / NANOS) as u64, nanos: (n % NANOS) as u32 }
        },
        None => Delay { seconds: u64::MAX, nanos: 0 },
    }
}

/// How long to wait until the next backup, which is `left` nanoseconds away.
pub fn next_backup_delay(left: Option<i128>) -> (r: Delay)
    requires
        left is Some ==> left->0 / NANOS <= u64::MAX,
    ensures
        r == delay_for(left),
{
    match left {
        Some(n) => if n < 0 {
            Delay { seconds: 0, nanos: 100_000_000 }
        } else {
            Delay { seconds: (n / NANOS) as u64, nanos: (n % NANOS) as u32 }
        },
        None => Delay { seconds: u64::MAX, nanos: 0 },
    }
}

/// The wait for a time to come is exactly as long as it takes; one for a time that has passed is a
/// tenth of a second, and without a time it never ends.
pub proof fn wait_is_as_long_as_it_takes(left: Option<i128>)
    requires
        left is Some ==> left->0 / NANOS <= u64::MAX,
    ensures
        ({
            let d = delay_for(left);
            &&& d.nanos < 1_000_000_000
            &&& left is Some && left->0 >= 0 ==> d.seconds * 1_000_000_000 + d.nanos == left->0
            &&& left is Some && left->0 < 0 ==> d.seconds * 1_000_000_000 + d.nanos == 100_000_000
            &&& left is None ==> d.seconds == u64::MAX && d.nanos == 0
        }),
{
    if left is Some && left->0 >= 0 {
        let n = left->0 as int;
        assert(n == (n / 1_000_000_000) * 1_000_000_000 + n % 1_000_000_000);
    }
}

/// What ended the wait for the next backup.
#[derive(Debug)]
pub enum Wake {
    /// No more signals will come.
    SignalsEnded,
    /// A signal came.
    Signal,
    /// It is time.
    Timeout,
}

/// What is done after a wait.
#[derive(Debug)]
pub enum BackupStep {
    /// No more backups are made.
    Stop,
    /// Positions are written to a file.
    WriteTo(String),
    /// There is no file to write to.
    NoFile,
}

/// Decides what is done after a wait for the next backup.
pub fn watch_for_positions_backup_signal(wake: Wake, backup_file: Option<String>) -> (r: BackupStep)
    ensures
        match wake {
            Wake::SignalsEnded => r is Stop,
            _ => r == match backup_file {
                Some(f) => BackupStep::WriteTo(f),
                None => BackupStep::NoFile,
            },
        },
{
    match wake {
        Wake::SignalsEnded => BackupStep::Stop,
        _ => match backup_file {
            Some(f) => BackupStep::WriteTo(f),
            None => BackupStep::NoFile,
        },
    }
}

/// The path under which a server is found: its prefix with a separator, or nothing.
pub fn url_path(prefix: Option<&str>) -> (r: String)
    ensures
        r@ == match prefix {
            Some(p) => p@ + "/"@,
            None => Seq::empty(),
        },
{
    match prefix {
        Some(p) => text::join_text(p, "/"),
        None => String::new(),
    }
}

/// A backup is written after every signal and at every time, to the configured file, until no more
/// signals come.
pub proof fn backups_go_to_the_configured_file(wake: Wake, file: Option<String>, r: BackupStep)
    requires
        call_ensures(watch_for_positions_backup_signal, (wake, file), r),
    ensures
        r is Stop <==> wake is SignalsEnded,
        r is NoFile <==> !(wake is SignalsEnded) && file is None,
        r matches BackupStep::WriteTo(f) ==> file == Some(f),
{
}

/// A secret may be up to 128 bytes long, and a new one has 32.
pub proof fn secrets_are_bounded(file_length: nat, r: Result<Secret, Error>, made: Secret)
    requires
        secret_decided(Some(file_length), r),
        secret_decided(None, Ok(made)),
    ensures
        r is Ok <==> file_length <= 128,
        made matches Secret::Write(s) && s@.len() == 32,
{
}

/// A server with a prefix is found under the prefix and a separator, and one without under nothing.
pub proof fn prefix_ends_with_separator(prefix: Option<&str>, r: String)
    requires
        call_ensures(url_path, (prefix,), r),
    ensures
        prefix is None ==> r@.len() == 0,
        prefix is Some ==> r@ == prefix->0@.push('/'),
{
    reveal_strlit("/");
    if prefix is Some {
        assert(prefix->0@ + "/"@ =~= prefix->0@.push('/'));
    }
}

} // verus!
