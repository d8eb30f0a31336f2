//! The system call dispatcher.
//!
//! A task asks for a service with a number and three argument words. Where the
//! service needs something from outside the process subsystem (a timer reading,
//! a loaded program, a copied address space), the caller of [`syscall`] brings
//! it along. Where the service ends in something that only the caller can do
//! (a switch, a write to user memory, console traffic), the outcome names it.

pub mod process;

use vstd::prelude::*;
use vstd::pervasive::unreached;
use crate::config::PAGE_SIZE;
use crate::task::kernel::{INITPROC_PID, Kernel, KernelView};
use crate::task::processor::update_syscall_times;
use crate::task::switch::Switch;
use crate::task::task::{ElfImage, TaskStatus};
use self::process::{
    TaskInfo,
    TimeVal,
    spec_time_val,
    sys_exec,
    sys_exit,
    sys_fork,
    sys_get_time,
    sys_getpid,
    sys_mmap,
    sys_munmap,
    sys_set_priority,
    sys_spawn,
    sys_task_info,
    sys_waitpid,
    sys_yield,
};

verus! {

pub const SYSCALL_READ: usize = 63;

pub const SYSCALL_WRITE: usize = 64;

pub const SYSCALL_EXIT: usize = 93;

pub const SYSCALL_YIELD: usize = 124;

pub const SYSCALL_SET_PRIORITY: usize = 140;

pub const SYSCALL_GET_TIME: usize = 169;

pub const SYSCALL_GETPID: usize = 172;

pub const SYSCALL_MUNMAP: usize = 215;

pub const SYSCALL_FORK: usize = 220;

pub const SYSCALL_EXEC: usize = 221;

pub const SYSCALL_MMAP: usize = 222;

pub const SYSCALL_WAITPID: usize = 260;

pub const SYSCALL_SPAWN: usize = 400;

pub const SYSCALL_TASK_INFO: usize = 410;

/// What the caller of [`syscall`] brings from outside the process subsystem.
pub enum SyscallInput {
    /// Nothing: for every system call that is not named below.
    Nothing,
    /// The timer reading in microseconds: for `SYSCALL_GET_TIME` and
    /// `SYSCALL_TASK_INFO`.
    Time(usize),
    /// The program that the task named with its first argument, loaded, or
    /// nothing if there is no program of that name: for `SYSCALL_EXEC` and
    /// `SYSCALL_SPAWN`.
    Program(Option<ElfImage>),
    /// The copy that the memory subsystem made of the running task's address
    /// space, by its page-table token and the page of its trap frame: for
    /// `SYSCALL_FORK`.
    AddressSpace { token: usize, trap_cx_ppn: usize },
}

/// The kinds of input that a system call can need.
#[derive(Clone, Copy, Debug, PartialEq, Eq, Structural)]
pub enum InputKind {
    Nothing,
    Time,
    Program,
    AddressSpace,
}

impl SyscallInput {
    /// The kind of this input.
    pub open spec fn kind(self) -> InputKind {
        match self {
            SyscallInput::Nothing => InputKind::Nothing,
            SyscallInput::Time(_) => InputKind::Time,
            SyscallInput::Program(_) => InputKind::Program,
            SyscallInput::AddressSpace { .. } => InputKind::AddressSpace,
        }
    }
}

/// The kind of input that the system call `syscall_id` needs.
pub open spec fn spec_input_kind(syscall_id: usize) -> InputKind {
    if syscall_id == SYSCALL_GET_TIME || syscall_id == SYSCALL_TASK_INFO {
        InputKind::Time
    } else if syscall_id == SYSCALL_EXEC || syscall_id == SYSCALL_SPAWN {
        InputKind::Program
    } else if syscall_id == SYSCALL_FORK {
        InputKind::AddressSpace
    } else {
        InputKind::Nothing
    }
}

/// The kind of input that the system call `syscall_id` needs.
#[verifier::when_used_as_spec(spec_input_kind)]
pub fn input_kind(syscall_id: usize) -> (kind: InputKind)
    ensures
        kind == spec_input_kind(syscall_id),
{
    if syscall_id == SYSCALL_GET_TIME || syscall_id == SYSCALL_TASK_INFO {
        InputKind::Time
    } else if syscall_id == SYSCALL_EXEC || syscall_id == SYSCALL_SPAWN {
        InputKind::Program
    } else if syscall_id == SYSCALL_FORK {
        InputKind::AddressSpace
    } else {
        InputKind::Nothing
    }
}

/// What is left for the caller of [`syscall`] to do.
pub enum SyscallAction {
    /// Hand the result to the task.
    Return,
    /// Carry out the switch. The result is for the task when it runs again.
    Switch(Switch),
    /// Read `len` bytes from the file `fd` into the user buffer at `buf`, and
    /// hand the task what the read yields.
    Read { fd: usize, buf: usize, len: usize },
    /// Write the `len` bytes of the user buffer at `buf` to the file `fd`, and
    /// hand the task what the write yields.
    Write { fd: usize, buf: usize, len: usize },
    /// Store `exit_code` at the user address `ptr`, then hand the result to the
    /// task.
    StoreExitCode { ptr: usize, exit_code: i32 },
    /// Store `time` at the user address `ptr`, then hand the result to the task.
    StoreTime { ptr: usize, time: TimeVal },
    /// Store `info` at the user address `ptr`, then hand the result to the task.
    StoreTaskInfo { ptr: usize, info: TaskInfo },
}

/// How a system call ended.
pub struct SyscallOutcome {
    /// The result for the task.
    pub ret: isize,
    /// What is left to do.
    pub action: SyscallAction,
}

/// Whether `id` is the number of a system call.
pub open spec fn known_syscall(id: usize) -> bool {
    ||| id == SYSCALL_READ
    ||| id == SYSCALL_WRITE
    ||| id == SYSCALL_EXIT
    ||| id == SYSCALL_YIELD
    ||| id == SYSCALL_SET_PRIORITY
    ||| id == SYSCALL_GET_TIME
    ||| id == SYSCALL_GETPID
    ||| id == SYSCALL_MUNMAP
    ||| id == SYSCALL_FORK
    ||| id == SYSCALL_EXEC
    ||| id == SYSCALL_MMAP
    ||| id == SYSCALL_WAITPID
    ||| id == SYSCALL_SPAWN
    ||| id == SYSCALL_TASK_INFO
}

impl KernelView {
    /// Whether the running task can make the system call `syscall_id` with
    /// `args` and `input` in this state without a fatal error: the number is
    /// known, the count of the call does not overflow, `input` is of the kind
    /// that the call needs, and
    /// - the initial process does not exit;
    /// - a task is created only while a process identifier is left;
    /// - the range of `mmap` and `munmap` ends within the address space, where
    ///   the call gets as far as to look at the range;
    /// - the timer reading is not before the task's start time.
    pub open spec fn admits(self, syscall_id: usize, args: [usize; 3], input: SyscallInput) -> bool {
        let task = self.tasks[self.current->0];
        &&& known_syscall(syscall_id)
        &&& self.current is Some
        &&& task.syscall_times[syscall_id as int] < u32::MAX
        &&& spec_input_kind(syscall_id) != InputKind::Nothing ==> input.kind() == spec_input_kind(
            syscall_id,
        )
        &&& syscall_id == SYSCALL_EXIT ==> self.current != Some(INITPROC_PID)
        &&& syscall_id == SYSCALL_FORK ==> self.can_create()
        &&& syscall_id == SYSCALL_EXEC ==> (input->Program_0 matches Some(elf)
            ==> elf.memory_set@.wf())
        &&& syscall_id == SYSCALL_SPAWN ==> (input->Program_0 matches Some(elf)
            ==> elf.memory_set@.wf() && self.can_create())
        &&& syscall_id == SYSCALL_MMAP && args[0] as int % PAGE_SIZE as int == 0 && 1 <= args[2]
            <= 7 ==> args[0] + args[1] <= usize::MAX
        &&& syscall_id == SYSCALL_MUNMAP && args[0] as int % PAGE_SIZE as int == 0 ==> args[0]
            + args[1] <= usize::MAX
        &&& syscall_id == SYSCALL_TASK_INFO ==> input->Time_0 >= task.start_time
    }
}

/// Whether `syscall_id` is the number of a system call.
pub fn is_known_syscall(syscall_id: usize) -> (r: bool)
    ensures
        r == known_syscall(syscall_id),
{
    syscall_id == SYSCALL_READ || syscall_id == SYSCALL_WRITE || syscall_id == SYSCALL_EXIT
        || syscall_id == SYSCALL_YIELD || syscall_id == SYSCALL_SET_PRIORITY || syscall_id
        == SYSCALL_GET_TIME || syscall_id == SYSCALL_GETPID || syscall_id == SYSCALL_MUNMAP
        || syscall_id == SYSCALL_FORK || syscall_id == SYSCALL_EXEC || syscall_id == SYSCALL_MMAP
        || syscall_id == SYSCALL_WAITPID || syscall_id == SYSCALL_SPAWN || syscall_id
        == SYSCALL_TASK_INFO
}

/// Whether the running task of `kernel`, if there is one, can make the system
/// call `syscall_id` with `args` and `input` without a fatal error.
pub fn admits(kernel: &Kernel, syscall_id: usize, args: [usize; 3], input: &SyscallInput) -> (r:
    bool)
    requires
        kernel.wf(),
    ensures
        r == kernel@.admits(syscall_id, args, *input),
{
    if !is_known_syscall(syscall_id) {
        return false;
    }
    let current: usize = match kernel.processor.current {
        Some(pid) => pid,
        None => {
            return false;
        },
    };
    proof {
        Kernel::lemma_current(kernel@);
    }
    let task = kernel.tasks.get(current);
    if task.inner.syscall_times[syscall_id] == u32::MAX {
        return false;
    }
    if syscall_id == SYSCALL_EXIT {
        current != INITPROC_PID
    } else if syscall_id == SYSCALL_FORK {
        match input {
            SyscallInput::AddressSpace { .. } => kernel.can_create(),
            _ => false,
        }
    } else if syscall_id == SYSCALL_EXEC {
        match input {
            SyscallInput::Program(Some(elf)) => elf.memory_set.is_wf(),
            SyscallInput::Program(None) => true,
            _ => false,
        }
    } else if syscall_id == SYSCALL_SPAWN {
        match input {
            SyscallInput::Program(Some(elf)) => elf.memory_set.is_wf() && kernel.can_create(),
            SyscallInput::Program(None) => true,
            _ => false,
        }
    } else if syscall_id == SYSCALL_MMAP {
        args[0] % PAGE_SIZE != 0 || args[2] < 1 || args[2] > 7 || args[0] <= usize::MAX - args[1]
    } else if syscall_id == SYSCALL_MUNMAP {
        args[0] % PAGE_SIZE != 0 || args[0] <= usize::MAX - args[1]
    } else if syscall_id == SYSCALL_GET_TIME {
        match input {
            SyscallInput::Time(_) => true,
            _ => false,
        }
    } else if syscall_id == SYSCALL_TASK_INFO {
        match input {
            SyscallInput::Time(now_us) => *now_us >= task.inner.start_time,
            _ => false,
        }
    } else {
        true
    }
}

/// Serves the system call `syscall_id` of the running task with the arguments
/// `args`: counts the call for the task, then does what the call asks for.
pub fn syscall(
    kernel: &mut Kernel,
    syscall_id: usize,
    args: [usize; 3],
    input: SyscallInput,
) -> (out: SyscallOutcome)
    requires
        old(kernel).wf(),
        old(kernel)@.admits(syscall_id, args, input),
    ensures
        final(kernel).wf(),
        ({
            let counted = old(kernel)@.update_syscall_times(syscall_id);
            let task = counted.tasks[counted.current->0];
            &&& syscall_id == SYSCALL_READ ==> final(kernel)@ == counted && out.ret == 0 && (
            out.action matches SyscallAction::Read { fd, buf, len } && fd == args[0] && buf
                == args[1] && len == args[2])
            &&& syscall_id == SYSCALL_WRITE ==> final(kernel)@ == counted && out.ret == 0 && (
            out.action matches SyscallAction::Write { fd, buf, len } && fd == args[0] && buf
                == args[1] && len == args[2])
            &&& syscall_id == SYSCALL_EXIT ==> final(kernel)@ == counted.exit(args[0] as i32).0
                && out.ret == 0 && (out.action matches SyscallAction::Switch(s) && s
                == counted.exit(args[0] as i32).1)
            &&& syscall_id == SYSCALL_YIELD ==> final(kernel)@ == counted.suspend().0 && out.ret
                == 0 && (out.action matches SyscallAction::Switch(s) && s == counted.suspend().1)
            &&& syscall_id == SYSCALL_GETPID ==> final(kernel)@ == counted && out.ret
                == counted.current->0 && out.action is Return
            &&& syscall_id == SYSCALL_FORK ==> final(kernel)@ == counted.fork(
                input->token,
                input->trap_cx_ppn,
            ).0 && out.ret == counted.fork(input->token, input->trap_cx_ppn).1
                && out.action is Return
            &&& syscall_id == SYSCALL_EXEC ==> final(kernel)@ == counted.exec(input->Program_0).0
                && out.ret == counted.exec(input->Program_0).1 && out.action is Return
            &&& syscall_id == SYSCALL_WAITPID ==> final(kernel)@ == counted.waitpid(
                args[0] as isize as int,
            ).0 && out.ret == counted.waitpid(args[0] as isize as int).1 && match counted.waitpid(
                args[0] as isize as int,
            ).2 {
                Some(code) => (out.action matches SyscallAction::StoreExitCode { ptr, exit_code }
                    && ptr == args[1] && exit_code == code),
                None => out.action is Return,
            }
            &&& syscall_id == SYSCALL_GET_TIME ==> final(kernel)@ == counted && out.ret == 0 && (
            out.action matches SyscallAction::StoreTime { ptr, time } && ptr == args[0] && time
                == spec_time_val(input->Time_0))
            &&& syscall_id == SYSCALL_MMAP ==> final(kernel)@ == counted.mmap(
                args[0],
                args[1],
                args[2],
            ).0 && out.ret == counted.mmap(args[0], args[1], args[2]).1 && out.action is Return
            &&& syscall_id == SYSCALL_MUNMAP ==> final(kernel)@ == counted.munmap(
                args[0],
                args[1],
            ).0 && out.ret == counted.munmap(args[0], args[1]).1 && out.action is Return
            &&& syscall_id == SYSCALL_SET_PRIORITY ==> final(kernel)@ == counted.set_priority(
                args[0] as isize as int,
            ).0 && out.ret == counted.set_priority(args[0] as isize as int).1
                && out.action is Return
            &&& syscall_id == SYSCALL_TASK_INFO ==> final(kernel)@ == counted && out.ret == 0 && (
            out.action matches SyscallAction::StoreTaskInfo { ptr, info } && ptr == args[0]
                && info.status == TaskStatus::Running && info.syscall_times@ == task.syscall_times
                && info.time == (input->Time_0 - task.start_time) / 1000)
            &&& syscall_id == SYSCALL_SPAWN ==> final(kernel)@ == counted.spawn(
                input->Program_0,
            ).0 && out.ret == counted.spawn(input->Program_0).1 && out.action is Return
        }),
{
    update_syscall_times(kernel, syscall_id);
    if syscall_id == SYSCALL_READ {
        SyscallOutcome {
            ret: 0,
            action: SyscallAction::Read { fd: args[0], buf: args[1], len: args[2] },
        }
    } else if syscall_id == SYSCALL_WRITE {
        SyscallOutcome {
            ret: 0,
            action: SyscallAction::Write { fd: args[0], buf: args[1], len: args[2] },
        }
    } else if syscall_id == SYSCALL_EXIT {
        let exit_code: i32 = #[verifier::truncate] (args[0] as i32);
        SyscallOutcome { ret: 0, action: SyscallAction::Switch(sys_exit(kernel, exit_code)) }
    } else if syscall_id == SYSCALL_YIELD {
        SyscallOutcome { ret: 0, action: SyscallAction::Switch(sys_yield(kernel)) }
    } else if syscall_id == SYSCALL_GETPID {
        SyscallOutcome { ret: sys_getpid(kernel), action: SyscallAction::Return }
    } else if syscall_id == SYSCALL_FORK {
        match input {
            SyscallInput::AddressSpace { token, trap_cx_ppn } => SyscallOutcome {
                ret: sys_fork(kernel, token, trap_cx_ppn),
                action: SyscallAction::Return,
            },
            _ => unreached(),
        }
    } else if syscall_id == SYSCALL_EXEC {
        match input {
            SyscallInput::Program(elf) => SyscallOutcome {
                ret: sys_exec(kernel, elf),
                action: SyscallAction::Return,
            },
            _ => unreached(),
        }
    } else if syscall_id == SYSCALL_WAITPID {
        let pid: isize = #[verifier::truncate] (args[0] as isize);
        let (ret, exit_code) = sys_waitpid(kernel, pid);
        match exit_code {
            Some(exit_code) => SyscallOutcome {
                ret,
                action: SyscallAction::StoreExitCode { ptr: args[1], exit_code },
            },
            None => SyscallOutcome { ret, action: SyscallAction::Return },
        }
    } else if syscall_id == SYSCALL_GET_TIME {
        match input {
            SyscallInput::Time(now_us) => SyscallOutcome {
                ret: 0,
                action: SyscallAction::StoreTime { ptr: args[0], time: sys_get_time(now_us) },
            },
            _ => unreached(),
        }
    } else if syscall_id == SYSCALL_MMAP {
        SyscallOutcome {
            ret: sys_mmap(kernel, args[0], args[1], args[2]),
            action: SyscallAction::Return,
        }
    } else if syscall_id == SYSCALL_MUNMAP {
        SyscallOutcome { ret: sys_munmap(kernel, args[0], args[1]), action: SyscallAction::Return }
    } else if syscall_id == SYSCALL_SET_PRIORITY {
        let prio: isize = #[verifier::truncate] (args[0] as isize);
        SyscallOutcome { ret: sys_set_priority(kernel, prio), action: SyscallAction::Return }
    } else if syscall_id == SYSCALL_TASK_INFO {
        match input {
            SyscallInput::Time(now_us) => SyscallOutcome {
                ret: 0,
                action: SyscallAction::StoreTaskInfo {
                    ptr: args[0],
                    info: sys_task_info(kernel, now_us),
                },
            },
            _ => unreached(),
        }
    } else {
        match input {
            SyscallInput::Program(elf) => SyscallOutcome {
                ret: sys_spawn(kernel, elf),
                action: SyscallAction::Return,
            },
            _ => unreached(),
        }
    }
}

} // verus!
