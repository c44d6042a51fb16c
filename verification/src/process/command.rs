//! How a process is started.

use vstd::prelude::*;

verus! {

/// Where an input or output of a process leads.
#[derive(Clone, Copy, Debug, PartialEq, Eq, Structural)]
pub enum Stdio {
    /// To where that of this process leads.
    Inherit,
    /// Nowhere.
    Null,
    /// To this process.
    Piped,
    /// To the file that the operating system knows by this number.
    File(i32),
}

/// A change of the environment.
#[derive(Debug)]
pub enum EnvChange {
    Put(Vec<u8>, Vec<u8>),
    Remove(Vec<u8>),
    Clear,
}

/// How a process is started. Its words are bytes, which need not be text.
#[derive(Debug)]
pub struct Command {
    pub program: Vec<u8>,
    pub args: Vec<Vec<u8>>,
    pub envs: Vec<EnvChange>,
    pub current_dir: Option<Vec<u8>>,
    pub stdin: Option<Stdio>,
    pub stdout: Option<Stdio>,
    pub stderr: Option<Stdio>,
    pub reap_on_drop: bool,
    pub kill_on_drop: bool,
    pub uid: Option<u32>,
    pub gid: Option<u32>,
    pub creation_flags: Option<u32>,
}

/// Where the input and the outputs of a process lead.
#[derive(Clone, Copy, Debug, PartialEq, Eq, Structural)]
pub struct Streams {
    pub stdin: Stdio,
    pub stdout: Stdio,
    pub stderr: Stdio,
}

/// What was asked for, or else `otherwise`.
pub open spec fn chosen(asked: Option<Stdio>, otherwise: Stdio) -> Stdio {
    match asked {
        Some(stdio) => stdio,
        None => otherwise,
    }
}

impl Command {
    /// The commands differ in nothing but what is written here: arguments, environment, place and
    /// streams may differ.
    pub open spec fn alike(&self, other: &Command) -> bool {
        &&& self.program == other.program
        &&& self.reap_on_drop == other.reap_on_drop
        &&& self.kill_on_drop == other.kill_on_drop
        &&& self.uid == other.uid
        &&& self.gid == other.gid
        &&& self.creation_flags == other.creation_flags
    }

    /// The streams of both are the same.
    pub open spec fn same_streams(&self, other: &Command) -> bool {
        &&& self.stdin == other.stdin
        &&& self.stdout == other.stdout
        &&& self.stderr == other.stderr
    }

    pub fn new(program: Vec<u8>) -> (r: Command)
        ensures
            r.program == program,
            r.args@ == Seq::<Vec<u8>>::empty(),
            r.envs@ == Seq::<EnvChange>::empty(),
            r.current_dir is None,
            r.stdin is None && r.stdout is None && r.stderr is None,
            r.reap_on_drop,
            !r.kill_on_drop,
            r.uid is None && r.gid is None && r.creation_flags is None,
    {
        Command {
            program,
            args: Vec::new(),
            envs: Vec::new(),
            current_dir: None,
            stdin: None,
            stdout: None,
            stderr: None,
            reap_on_drop: true,
            kill_on_drop: false,
            uid: None,
            gid: None,
            creation_flags: None,
        }
    }

    /// Adds an argument.
    pub fn arg(&mut self, arg: Vec<u8>) -> (r: &mut Command)
        ensures
            r.args@ == old(self).args@.push(arg),
            r.envs == old(self).envs,
            r.current_dir == old(self).current_dir,
            r.same_streams(old(self)),
            r.alike(old(self)),
            *final(self) == *final(r),
    {
        self.args.push(arg);
        self
    }

    /// Adds arguments.
    pub fn args(&mut self, args: Vec<Vec<u8>>) -> (r: &mut Command)
        ensures
            r.args@ == old(self).args@ + args@,
            r.envs == old(self).envs,
            r.current_dir == old(self).current_dir,
            r.same_streams(old(self)),
            r.alike(old(self)),
            *final(self) == *final(r),
    {
        let mut args = args;
        self.args.append(&mut args);
        self
    }

    /// Sets a variable of the environment.
    pub fn env(&mut self, key: Vec<u8>, val: Vec<u8>) -> (r: &mut Command)
        ensures
            r.envs@ == old(self).envs@.push(EnvChange::Put(key, val)),
            r.args == old(self).args,
            r.current_dir == old(self).current_dir,
            r.same_streams(old(self)),
            r.alike(old(self)),
            *final(self) == *final(r),
    {
        self.envs.push(EnvChange::Put(key, val));
        self
    }

    /// Sets variables of the environment.
    pub fn envs(&mut self, vars: Vec<(Vec<u8>, Vec<u8>)>) -> (r: &mut Command)
        ensures
            r.envs@ == old(self).envs@ + vars@.map_values(
                |kv: (Vec<u8>, Vec<u8>)| EnvChange::Put(kv.0, kv.1),
            ),
            r.args == old(self).args,
            r.current_dir == old(self).current_dir,
            r.same_streams(old(self)),
            r.alike(old(self)),
            *final(self) == *final(r),
    {
        let mut changes: Vec<EnvChange> = Vec::new();
        let mut vars = vars;
        let ghost all = vars@;
        let ghost to = all.map_values(|kv: (Vec<u8>, Vec<u8>)| EnvChange::Put(kv.0, kv.1));
        let n: usize = vars.len();
        let mut i: usize = 0;
        while i < n
            invariant
                i <= n,
                n == all.len(),
                vars@ == all.take(n - i),
                changes@.len() == i,
                to == all.map_values(|kv: (Vec<u8>, Vec<u8>)| EnvChange::Put(kv.0, kv.1)),
                forall|j: int| 0 <= j < i ==> changes@[j] == to[n - 1 - j],
            decreases n - i,
        {
            let (key, val) = vars.pop().unwrap();
            assert((key, val) == all[n - 1 - i]);
            changes.push(EnvChange::Put(key, val));
            i = i + 1;
        }
        while i > 0
            invariant
                i <= n,
                n == to.len(),
                changes@.len() == i,
                forall|j: int| 0 <= j < i ==> changes@[j] == to[n - 1 - j],
                self.envs@ == old(self).envs@ + to.take(n - i),
                self.args == old(self).args,
                self.current_dir == old(self).current_dir,
                self.same_streams(old(self)),
                self.alike(old(self)),
            decreases i,
        {
            let change = changes.pop().unwrap();
            self.envs.push(change);
            assert(to.take(n - i + 1) =~= to.take(n - i).push(to[n - i]));
            assert(self.envs@ =~= old(self).envs@ + to.take(n - i + 1));
            i = i - 1;
        }
        assert(to.take(n as int) =~= to);
        self
    }

    /// Removes a variable of the environment.
    pub fn env_remove(&mut self, key: Vec<u8>) -> (r: &mut Command)
        ensures
            r.envs@ == old(self).envs@.push(EnvChange::Remove(key)),
            r.args == old(self).args,
            r.current_dir == old(self).current_dir,
            r.same_streams(old(self)),
            r.alike(old(self)),
            *final(self) == *final(r),
    {
        self.envs.push(EnvChange::Remove(key));
        self
    }

    /// Removes all variables of the environment.
    pub fn env_clear(&mut self) -> (r: &mut Command)
        ensures
            r.envs@ == old(self).envs@.push(EnvChange::Clear),
            r.args == old(self).args,
            r.current_dir == old(self).current_dir,
            r.same_streams(old(self)),
            r.alike(old(self)),
            *final(self) == *final(r),
    {
        self.envs.push(EnvChange::Clear);
        self
    }

    /// Sets where the process starts.
    pub fn current_dir(&mut self, dir: Vec<u8>) -> (r: &mut Command)
        ensures
            *r == (Command { current_dir: Some(dir), ..*old(self) }),
            *final(self) == *final(r),
    {
        self.current_dir = Some(dir);
        self
    }

    pub fn stdin(&mut self, cfg: Stdio) -> (r: &mut Command)
        ensures
            *r == (Command { stdin: Some(cfg), ..*old(self) }),
            *final(self) == *final(r),
    {
        self.stdin = Some(cfg);
        self
    }

    pub fn stdout(&mut self, cfg: Stdio) -> (r: &mut Command)
        ensures
            *r == (Command { stdout: Some(cfg), ..*old(self) }),
            *final(self) == *final(r),
    {
        self.stdout = Some(cfg);
        self
    }

    pub fn stderr(&mut self, cfg: Stdio) -> (r: &mut Command)
        ensures
            *r == (Command { stderr: Some(cfg), ..*old(self) }),
            *final(self) == *final(r),
    {
        self.stderr = Some(cfg);
        self
    }

    /// Whether the process is seen to its end when its handle is given up.
    pub fn reap_on_drop(&mut self, reap_on_drop: bool) -> (r: &mut Command)
        ensures
            *r == (Command { reap_on_drop, ..*old(self) }),
            *final(self) == *final(r),
    {
        self.reap_on_drop = reap_on_drop;
        self
    }

    /// Whether the process is killed when its handle is given up.
    pub fn kill_on_drop(&mut self, kill_on_drop: bool) -> (r: &mut Command)
        ensures
            *r == (Command { kill_on_drop, ..*old(self) }),
            *final(self) == *final(r),
    {
        self.kill_on_drop = kill_on_drop;
        self
    }

    /// Where the streams lead: where it was asked for, and else to where `otherwise` says. What
    /// was asked for counts once.
    fn streams(&mut self, otherwise: Streams) -> (r: Streams)
        ensures
            r.stdin == chosen(old(self).stdin, otherwise.stdin),
            r.stdout == chosen(old(self).stdout, otherwise.stdout),
            r.stderr == chosen(old(self).stderr, otherwise.stderr),
            *final(self) == (Command { stdin: None, stdout: None, stderr: None, ..*old(self) }),
    {
        let r = Streams {
            stdin: match self.stdin {
                Some(stdio) => stdio,
                None => otherwise.stdin,
            },
            stdout: match self.stdout {
                Some(stdio) => stdio,
                None => otherwise.stdout,
            },
            stderr: match self.stderr {
                Some(stdio) => stdio,
                None => otherwise.stderr,
            },
        };
        self.stdin = None;
        self.stdout = None;
        self.stderr = None;
        r
    }

    /// Where the streams lead when the process is started, or only its status is of interest.
    pub fn spawn(&mut self) -> (r: Streams)
        ensures
            r.stdin == chosen(old(self).stdin, Stdio::Inherit),
            r.stdout == chosen(old(self).stdout, Stdio::Inherit),
            r.stderr == chosen(old(self).stderr, Stdio::Inherit),
            *final(self) == (Command { stdin: None, stdout: None, stderr: None, ..*old(self) }),
            old(self).stdin matches Some(stdio) ==> r.stdin == stdio,
            old(self).stdout matches Some(stdio) ==> r.stdout == stdio,
            old(self).stderr matches Some(stdio) ==> r.stderr == stdio,
            old(self).stdin is None ==> r.stdin is Inherit,
            old(self).stdout is None ==> r.stdout is Inherit,
            old(self).stderr is None ==> r.stderr is Inherit,
    {
        self.streams(
            Streams { stdin: Stdio::Inherit, stdout: Stdio::Inherit, stderr: Stdio::Inherit },
        )
    }

    /// Where the streams lead when the process is started and its output is collected.
    pub fn output(&mut self) -> (r: Streams)
        ensures
            r.stdin == chosen(old(self).stdin, Stdio::Null),
            r.stdout == chosen(old(self).stdout, Stdio::Piped),
            r.stderr == chosen(old(self).stderr, Stdio::Piped),
            *final(self) == (Command { stdin: None, stdout: None, stderr: None, ..*old(self) }),
            old(self).stdin matches Some(stdio) ==> r.stdin == stdio,
            old(self).stdout matches Some(stdio) ==> r.stdout == stdio,
            old(self).stderr matches Some(stdio) ==> r.stderr == stdio,
            old(self).stdin is None ==> r.stdin is Null,
            old(self).stdout is None ==> r.stdout is Piped,
            old(self).stderr is None ==> r.stderr is Piped,
    {
        self.streams(Streams { stdin: Stdio::Null, stdout: Stdio::Piped, stderr: Stdio::Piped })
    }

    /// Sets the user that the process runs as.
    pub fn uid(&mut self, id: u32) -> (r: &mut Command)
        ensures
            *r == (Command { uid: Some(id), ..*old(self) }),
            *final(self) == *final(r),
    {
        self.uid = Some(id);
        self
    }

    /// Sets the group that the process runs as.
    pub fn gid(&mut self, id: u32) -> (r: &mut Command)
        ensures
            *r == (Command { gid: Some(id), ..*old(self) }),
            *final(self) == *final(r),
    {
        self.gid = Some(id);
        self
    }

    /// Changes nothing: the name under which a program is started cannot be set.
    pub fn arg0(&mut self, arg: Vec<u8>) -> (r: &mut Command)
        ensures
            *r == *old(self),
            *final(self) == *final(r),
    {
        self
    }

    /// Sets flags that are handed on where processes are made on Windows.
    pub fn creation_flags(&mut self, flags: u32) -> (r: &mut Command)
        ensures
            *r == (Command { creation_flags: Some(flags), ..*old(self) }),
            *final(self) == *final(r),
    {
        self.creation_flags = Some(flags);
        self
    }
}

/// What was asked for is what is chosen.
pub proof fn law_asked_for(asked: Stdio, otherwise: Stdio)
    ensures
        chosen(Some(asked), otherwise) == asked,
        chosen(None, otherwise) == otherwise,
{
}

} // verus!
