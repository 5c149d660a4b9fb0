//! Everything that the guest-facing functions read and change.
use vstd::prelude::*;

use crate::frameworks;
use crate::fs::{Fs, GuestFile};
use crate::libc;
use crate::libc::posix_io::PosixFileHostObject;
use crate::mem::{Mem, MutPtr};
use crate::objc::{KnownClasses, ObjC};

verus! {

/// The application bundle that the guest runs from.
pub struct Bundle {
    /// The absolute path of the bundle's directory.
    pub bundle_path: Vec<char>,
    /// The absolute path of the executable in it.
    pub executable_path: Vec<char>,
    /// The identifier of the application.
    pub bundle_identifier: Vec<u8>,
}

pub type ThreadId = usize;

/// An environment variable: its name, and the C string that is its value.
pub struct EnvVar {
    pub name: Vec<u8>,
    pub value: MutPtr,
}

/// The guest's processor.
pub struct Cpu {
    /// The sixteen registers.
    pub regs: Vec<u32>,
    /// Where the guest goes on instead of returning from the current call.
    pub branch_to: Option<u32>,
}

impl Cpu {
    pub open spec fn wf(&self) -> bool {
        self.regs@.len() == 16
    }
}

/// Whether two byte strings are the same.
pub fn same_bytes(a: &Vec<u8>, b: &Vec<u8>) -> (r: bool)
    ensures
        r == (a@ == b@),
{
    if a.len() != b.len() {
        return false;
    }
    let n: usize = a.len();
    let mut i: usize = 0;
    while i < n
        invariant
            i <= n == a@.len() == b@.len(),
            forall|k: int| 0 <= k < i ==> a@[k] == b@[k],
        decreases n - i,
    {
        if a[i] != b[i] {
            return false;
        }
        i = i + 1;
    }
    assert(a@ =~= b@);
    true
}

/// One of the host's output streams.
pub struct Console {
    /// What was written, in order.
    pub text: Vec<u8>,
    /// The most bytes that one write takes.
    pub transfer_limit: usize,
    /// The stream refuses every write.
    pub broken: bool,
}

impl Console {
    /// Nothing was written yet, and everything can be.
    pub open spec fn fresh(&self) -> bool {
        self.text@.len() == 0 && self.transfer_limit == usize::MAX && !self.broken
    }

    /// A stream that takes everything.
    pub fn new() -> (r: Console)
        ensures
            r.fresh(),
    {
        Console { text: Vec::new(), transfer_limit: usize::MAX, broken: false }
    }

    /// How many of `n` bytes one write takes.
    pub open spec fn write_count(&self, n: int) -> int {
        if n < self.transfer_limit {
            n
        } else {
            self.transfer_limit as int
        }
    }

    /// Writes up to `data.len()` bytes.
    pub fn write(&mut self, data: &Vec<u8>) -> (r: Result<usize, ()>)
        ensures
            *final(self) == (Console { text: final(self).text, ..*old(self) }),
            if old(self).broken {
                r is Err && final(self).text == old(self).text
            } else {
                &&& r == Ok::<usize, ()>(old(self).write_count(data@.len() as int) as usize)
                &&& final(self).text@ == old(self).text@ + data@.take(
                    old(self).write_count(data@.len() as int),
                )
            },
    {
        if self.broken {
            return Err(());
        }
        let n: usize = if data.len() < self.transfer_limit {
            data.len()
        } else {
            self.transfer_limit
        };
        let mut part: Vec<u8> = data.clone();
        part.truncate(n);
        self.text.append(&mut part);
        Ok(n)
    }

    /// Writes all of `data`, unless the stream is broken.
    pub fn write_all(&mut self, data: &Vec<u8>)
        ensures
            *final(self) == (Console { text: final(self).text, ..*old(self) }),
            final(self).text@ == if old(self).broken {
                old(self).text@
            } else {
                old(self).text@ + data@
            },
    {
        if !self.broken {
            let mut all: Vec<u8> = data.clone();
            self.text.append(&mut all);
        }
    }
}

pub struct Environment {
    pub mem: Mem,
    pub fs: Fs,
    pub bundle: Bundle,
    pub libc_state: libc::State,
    pub framework_state: frameworks::State,
    pub objc: ObjC,
    pub cpu: Cpu,
    /// The guest thread that makes the current call.
    pub current_thread: ThreadId,
    pub env_vars: Vec<EnvVar>,
    /// The host's standard output.
    pub console: Console,
    /// The host's standard error stream.
    pub error_console: Console,
}

impl Environment {
    /// A guest with memory of a size and with files, before it has run.
    pub fn new(mem: Mem, fs: Fs, bundle: Bundle, classes: KnownClasses) -> (r: Environment)
        requires
            mem.wf(),
            fs.wf(),
        ensures
            r.wf(),
            r.mem == mem,
            r.fs == fs,
            r.bundle == bundle,
            r.objc.classes == classes,
            r.objc.fresh(),
            r.libc_state.fresh(),
            r.framework_state.fresh(),
            r.cpu.regs@ == Seq::new(16, |i: int| 0u32),
            r.cpu.branch_to is None,
            r.current_thread == 0,
            r.env_vars@.len() == 0,
            r.console.fresh(),
            r.error_console.fresh(),
    {
        let mut regs: Vec<u32> = Vec::new();
        regs.resize(16, 0);
        assert(regs@ =~= Seq::new(16, |i: int| 0u32));
        Environment {
            mem,
            fs,
            bundle,
            libc_state: libc::State::default(),
            framework_state: frameworks::State::default(),
            objc: ObjC::new(classes),
            cpu: Cpu { regs, branch_to: None },
            current_thread: 0,
            env_vars: Vec::new(),
            console: Console::new(),
            error_console: Console::new(),
        }
    }

    /// Memory, files and descriptors are each in order, and every descriptor
    /// names an open file.
    pub open spec fn wf(&self) -> bool {
        &&& self.mem.wf()
        &&& self.fs.wf()
        &&& self.libc_state.posix_io.wf(self.fs)
        &&& self.libc_state.semaphore.wf()
    }

    pub open spec fn errno(&self) -> i32 {
        self.libc_state.errno.value
    }

    /// The descriptor table, without the three standard streams.
    pub open spec fn files(&self) -> Seq<Option<PosixFileHostObject>> {
        self.libc_state.posix_io.files@
    }

    pub open spec fn fd_open(&self, fd: int) -> bool {
        self.libc_state.posix_io.fd_open(fd)
    }

    /// What the open descriptor `fd` stands for.
    pub open spec fn object(&self, fd: int) -> PosixFileHostObject {
        self.files()[fd - 3]->0
    }

    /// The file that the open descriptor `fd` stands for.
    pub open spec fn file(&self, fd: int) -> GuestFile {
        self.object(fd).file
    }

    pub open spec fn with_errno(self, errno: i32) -> Environment {
        Environment {
            libc_state: libc::State {
                errno: libc::errno::State { value: errno },
                ..self.libc_state
            },
            ..self
        }
    }

    pub open spec fn with_mem(self, mem: Mem) -> Environment {
        Environment { mem, ..self }
    }

    pub open spec fn with_fs(self, fs: Fs) -> Environment {
        Environment { fs, ..self }
    }

    pub open spec fn with_posix_io(self, posix_io: libc::posix_io::State) -> Environment {
        Environment { libc_state: libc::State { posix_io, ..self.libc_state }, ..self }
    }

    pub open spec fn with_audio_file(
        self,
        audio_file: frameworks::audio_toolbox::audio_file::State,
    ) -> Environment {
        Environment {
            framework_state: frameworks::State {
                audio_toolbox: frameworks::audio_toolbox::State {
                    audio_file,
                    ..self.framework_state.audio_toolbox
                },
                ..self.framework_state
            },
            ..self
        }
    }

    pub open spec fn with_data_provider(
        self,
        data_provider: frameworks::core_graphics::cg_data_provider::State,
    ) -> Environment {
        Environment {
            framework_state: frameworks::State {
                core_graphics: frameworks::core_graphics::State {
                    data_provider,
                    ..self.framework_state.core_graphics
                },
                ..self.framework_state
            },
            ..self
        }
    }

    pub open spec fn with_cg_context(
        self,
        cg_context: frameworks::core_graphics::cg_context::State,
    ) -> Environment {
        Environment {
            framework_state: frameworks::State {
                core_graphics: frameworks::core_graphics::State {
                    cg_context,
                    ..self.framework_state.core_graphics
                },
                ..self.framework_state
            },
            ..self
        }
    }

    pub open spec fn with_ui_window(
        self,
        ui_window: frameworks::uikit::ui_view::ui_window::State,
    ) -> Environment {
        Environment {
            framework_state: frameworks::State {
                uikit: frameworks::uikit::State {
                    ui_view: frameworks::uikit::ui_view::State {
                        ui_window,
                        ..self.framework_state.uikit.ui_view
                    },
                    ..self.framework_state.uikit
                },
                ..self.framework_state
            },
            ..self
        }
    }

    pub open spec fn with_cpu(self, cpu: Cpu) -> Environment {
        Environment { cpu, ..self }
    }

    pub open spec fn with_env_vars(self, env_vars: Vec<EnvVar>) -> Environment {
        Environment { env_vars, ..self }
    }

    pub open spec fn with_objc(self, objc: ObjC) -> Environment {
        Environment { objc, ..self }
    }

    pub open spec fn with_console(self, console: Console) -> Environment {
        Environment { console, ..self }
    }

    pub open spec fn with_error_console(self, error_console: Console) -> Environment {
        Environment { error_console, ..self }
    }

    pub open spec fn with_getopt(self, getopt: libc::getopt::State) -> Environment {
        Environment { libc_state: libc::State { getopt, ..self.libc_state }, ..self }
    }

    pub open spec fn with_stdlib(self, stdlib: libc::stdlib::State) -> Environment {
        Environment { libc_state: libc::State { stdlib, ..self.libc_state }, ..self }
    }

    pub open spec fn with_semaphore(self, semaphore: libc::semaphore::State) -> Environment {
        Environment { libc_state: libc::State { semaphore, ..self.libc_state }, ..self }
    }

    pub open spec fn with_stdio(self, stdio: libc::stdio::State) -> Environment {
        Environment { libc_state: libc::State { stdio, ..self.libc_state }, ..self }
    }
}

} // verus!
