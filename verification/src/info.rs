//! System information records that system calls copy out to user space.
use crate::codec::{get_u64, put_signed_word, put_word, signed_word_bytes, word_bytes, word_of};
use crate::timer::TimeVal;
use vstd::prelude::*;
use vstd::string::StringSliceAdditionalSpecFns;

verus! {

/// The bytes of `s` followed by zeros up to sixty-five bytes.
pub open spec fn padded_name(s: Seq<u8>) -> Seq<u8> {
    Seq::new(
        65,
        |i: int|
            if i < s.len() {
                s[i]
            } else {
                0u8
            },
    )
}

/// Names of the system, as `uname` reports them.
pub struct Utsname {
    pub sysname: [u8; 65],
    pub nodename: [u8; 65],
    pub release: [u8; 65],
    pub version: [u8; 65],
    pub machine: [u8; 65],
    pub domainname: [u8; 65],
}

/// The names this kernel reports, as `uname` stores them.
pub open spec fn default_uts() -> Seq<u8> {
    padded_name("Linux".spec_bytes()) + padded_name("untuntu".spec_bytes()) + padded_name(
        "5.0".spec_bytes(),
    ) + padded_name("5.13".spec_bytes()) + padded_name("riscv64".spec_bytes()) + padded_name(
        "Jeremy_test".spec_bytes(),
    )
}

impl Utsname {
    /// The six fields one after the other: 390 bytes.
    pub open spec fn bytes(&self) -> Seq<u8> {
        self.sysname@ + self.nodename@ + self.release@ + self.version@ + self.machine@
            + self.domainname@
    }

    /// The names this kernel reports.
    pub fn new() -> (u: Self)
        ensures
            u.sysname@ == padded_name("Linux".spec_bytes()),
            u.nodename@ == padded_name("untuntu".spec_bytes()),
            u.release@ == padded_name("5.0".spec_bytes()),
            u.version@ == padded_name("5.13".spec_bytes()),
            u.machine@ == padded_name("riscv64".spec_bytes()),
            u.domainname@ == padded_name("Jeremy_test".spec_bytes()),
            u.bytes() == default_uts(),
    {
        proof {
            Self::lemma_literal_lengths();
        }
        Self {
            sysname: Utsname::str2u8("Linux"),
            nodename: Utsname::str2u8("untuntu"),
            release: Utsname::str2u8("5.0"),
            version: Utsname::str2u8("5.13"),
            machine: Utsname::str2u8("riscv64"),
            domainname: Utsname::str2u8("Jeremy_test"),
        }
    }

    proof fn lemma_literal_lengths()
        ensures
            "Linux".spec_bytes().len() <= 65,
            "untuntu".spec_bytes().len() <= 65,
            "5.0".spec_bytes().len() <= 65,
            "5.13".spec_bytes().len() <= 65,
            "riscv64".spec_bytes().len() <= 65,
            "Jeremy_test".spec_bytes().len() <= 65,
    {
        reveal_strlit("Linux");
        reveal_strlit("untuntu");
        reveal_strlit("5.0");
        reveal_strlit("5.13");
        reveal_strlit("riscv64");
        reveal_strlit("Jeremy_test");
        vstd::string::is_ascii_spec_bytes("Linux");
        vstd::string::is_ascii_spec_bytes("untuntu");
        vstd::string::is_ascii_spec_bytes("5.0");
        vstd::string::is_ascii_spec_bytes("5.13");
        vstd::string::is_ascii_spec_bytes("riscv64");
        vstd::string::is_ascii_spec_bytes("Jeremy_test");
    }

    /// The bytes of `s`, padded with zeros to the length of a field.
    pub fn str2u8(s: &str) -> (arr: [u8; 65])
        requires
            s.spec_bytes().len() <= 65,
        ensures
            arr@ == padded_name(s.spec_bytes()),
    {
        let mut arr: [u8; 65] = [0;65];
        let cstr = s.as_bytes();
        let len: usize = cstr.len();
        let mut i: usize = 0;
        while i < len
            invariant
                i <= len,
                len == cstr@.len(),
                len <= 65,
                forall|j: int| 0 <= j < i ==> arr@[j] == cstr@[j],
                forall|j: int| i <= j < 65 ==> arr@[j] == 0u8,
            decreases len - i,
        {
            arr[i] = cstr[i];
            i += 1;
        }
        assert(arr@ =~= padded_name(s.spec_bytes()));
        arr
    }

    /// The record as user space reads it: the six fields one after the other.
    pub fn as_bytes(&self) -> (out: Vec<u8>)
        ensures
            out@ == self.bytes(),
            out@.len() == 390,
    {
        let mut out: Vec<u8> = Vec::new();
        out.extend_from_slice(self.sysname.as_slice());
        out.extend_from_slice(self.nodename.as_slice());
        out.extend_from_slice(self.release.as_slice());
        out.extend_from_slice(self.version.as_slice());
        out.extend_from_slice(self.machine.as_slice());
        out.extend_from_slice(self.domainname.as_slice());
        out
    }
}

/// Flags of `clone`: the low byte is the exit signal, every higher bit up to
/// bit 31 is a named flag.
#[derive(Clone, Copy, Debug, PartialEq, Eq, Structural)]
pub struct CloneFlags {
    pub bits: usize,
}

/// The exit signal a plain `fork` asks for.
pub const SIGCHLD: usize = 17;

/// Mask of the signal sent at exit.
pub const CSIGNAL: usize = 0x0000_00ff;

/// The address space is shared.
pub const CLONE_VM: usize = 0x0000_0100;

/// The information on the file system is shared.
pub const CLONE_FS: usize = 0x0000_0200;

/// The open files are shared.
pub const CLONE_FILES: usize = 0x0000_0400;

/// The signal handlers and the blocked signals are shared.
pub const CLONE_SIGHAND: usize = 0x0000_0800;

/// A descriptor of the child is placed in the parent.
pub const CLONE_PIDFD: usize = 0x0000_1000;

/// Tracing goes on in the child.
pub const CLONE_PTRACE: usize = 0x0000_2000;

/// The child wakes the parent when it releases its memory.
pub const CLONE_VFORK: usize = 0x0000_4000;

/// The child has the parent of the caller.
pub const CLONE_PARENT: usize = 0x0000_8000;

/// The child is a thread of the group of the caller.
pub const CLONE_THREAD: usize = 0x0001_0000;

/// The child gets a new mount namespace.
pub const CLONE_NEWNS: usize = 0x0002_0000;

/// The undo values of semaphores are shared.
pub const CLONE_SYSVSEM: usize = 0x0004_0000;

/// The child gets new thread-local storage.
pub const CLONE_SETTLS: usize = 0x0008_0000;

/// The thread identifier is stored in the parent.
pub const CLONE_PARENT_SETTID: usize = 0x0010_0000;

/// The thread identifier is cleared in the child at exit.
pub const CLONE_CHILD_CLEARTID: usize = 0x0020_0000;

/// Not used.
pub const CLONE_DETACHED: usize = 0x0040_0000;

/// The tracer cannot force tracing on the child.
pub const CLONE_UNTRACED: usize = 0x0080_0000;

/// The thread identifier is stored in the child.
pub const CLONE_CHILD_SETTID: usize = 0x0100_0000;

/// The child gets a new cgroup namespace.
pub const CLONE_NEWCGROUP: usize = 0x0200_0000;

/// The child gets a new namespace of system names.
pub const CLONE_NEWUTS: usize = 0x0400_0000;

/// The child gets a new namespace of inter-process communication.
pub const CLONE_NEWIPC: usize = 0x0800_0000;

/// The child gets a new user namespace.
pub const CLONE_NEWUSER: usize = 0x1000_0000;

/// The child gets a new namespace of process identifiers.
pub const CLONE_NEWPID: usize = 0x2000_0000;

/// The child gets a new network namespace.
pub const CLONE_NEWNET: usize = 0x4000_0000;

/// The context of input and output is shared.
pub const CLONE_IO: usize = 0x8000_0000;

/// Every bit that a flag word may hold.
pub const CLONE_ALL: usize = 0xffff_ffff;

impl CloneFlags {
    /// The flags with exactly these bits, if none lies above bit 31.
    pub fn from_bits(bits: usize) -> (r: Option<Self>)
        ensures
            r is Some <==> bits <= 0xffff_ffff,
            r matches Some(f) ==> f.bits == bits,
    {
        if bits <= CLONE_ALL {
            Some(CloneFlags { bits })
        } else {
            None
        }
    }

    /// The raw bits.
    pub fn bits(&self) -> (r: usize)
        ensures
            r == self.bits,
    {
        self.bits
    }
}

/// A soft and a hard limit on one resource.
#[derive(Clone, Copy, Debug, PartialEq, Eq, Structural)]
pub struct RLimit {
    pub rlim_cur: usize,
    pub rlim_max: usize,
}

impl RLimit {
    /// No limit at all.
    pub fn new() -> (r: Self)
        ensures
            r.rlim_cur == usize::MAX,
            r.rlim_max == usize::MAX,
    {
        RLimit { rlim_cur: usize::MAX, rlim_max: usize::MAX }
    }

    /// The sixteen bytes user space reads: the soft limit, then the hard one.
    pub open spec fn bytes(self) -> Seq<u8> {
        word_bytes(self.rlim_cur) + word_bytes(self.rlim_max)
    }

    /// The sixteen bytes user space reads: the soft limit, then the hard one.
    pub fn as_bytes(&self) -> (out: Vec<u8>)
        ensures
            out@ == self.bytes(),
            out@.len() == 16,
    {
        let mut out: Vec<u8> = Vec::new();
        put_word(&mut out, self.rlim_cur);
        put_word(&mut out, self.rlim_max);
        out
    }

    /// The limits that user space stored as sixteen bytes.
    pub fn from_bytes(data: &[u8]) -> (r: Self)
        requires
            data@.len() == 16,
        ensures
            r.rlim_cur == word_of(data@.subrange(0, 8)),
            r.rlim_max == word_of(data@.subrange(8, 16)),
    {
        RLimit { rlim_cur: get_u64(data, 0) as usize, rlim_max: get_u64(data, 8) as usize }
    }
}

/// Resource usage of a process.  Only the two times are kept; the other
/// counters are always zero.
#[derive(Clone, Copy, Debug, PartialEq, Eq, Structural)]
pub struct RUsage {
    pub ru_utime: TimeVal,
    pub ru_stime: TimeVal,
    pub ru_maxrss: isize,
    pub ru_ixrss: isize,
    pub ru_idrss: isize,
    pub ru_isrss: isize,
    pub ru_minflt: isize,
    pub ru_majflt: isize,
    pub ru_nswap: isize,
    pub ru_inblock: isize,
    pub ru_oublock: isize,
    pub ru_msgsnd: isize,
    pub ru_msgrcv: isize,
    pub ru_nsignals: isize,
    pub ru_nvcsw: isize,
    pub ru_nivcsw: isize,
}

impl RUsage {
    /// The counters that follow the two times, in the order of the record.
    pub open spec fn counters(self) -> Seq<isize> {
        seq![
            self.ru_maxrss,
            self.ru_ixrss,
            self.ru_idrss,
            self.ru_isrss,
            self.ru_minflt,
            self.ru_majflt,
            self.ru_nswap,
            self.ru_inblock,
            self.ru_oublock,
            self.ru_msgsnd,
            self.ru_msgrcv,
            self.ru_nsignals,
            self.ru_nvcsw,
            self.ru_nivcsw,
        ]
    }

    /// The bytes of the first `n` counters.
    pub open spec fn counter_bytes(self, n: nat) -> Seq<u8>
        decreases n,
    {
        if n == 0 {
            Seq::<u8>::empty()
        } else {
            self.counter_bytes((n - 1) as nat) + signed_word_bytes(self.counters()[n - 1])
        }
    }

    /// The 144 bytes user space reads: the two times, then the fourteen counters.
    pub open spec fn bytes(self) -> Seq<u8> {
        self.ru_utime.bytes() + self.ru_stime.bytes() + self.counter_bytes(14)
    }

    /// A record in which every time and every counter is zero.
    pub fn new() -> (r: Self)
        ensures
            r.ru_utime == (TimeVal { sec: 0, usec: 0 }),
            r.ru_stime == (TimeVal { sec: 0, usec: 0 }),
            forall|i: int| 0 <= i < 14 ==> r.counters()[i] == 0,
    {
        Self {
            ru_utime: TimeVal::new(),
            ru_stime: TimeVal::new(),
            ru_maxrss: 0,
            ru_ixrss: 0,
            ru_idrss: 0,
            ru_isrss: 0,
            ru_minflt: 0,
            ru_majflt: 0,
            ru_nswap: 0,
            ru_inblock: 0,
            ru_oublock: 0,
            ru_msgsnd: 0,
            ru_msgrcv: 0,
            ru_nsignals: 0,
            ru_nvcsw: 0,
            ru_nivcsw: 0,
        }
    }

    /// The 144 bytes user space reads: the two times, then the fourteen counters.
    pub fn as_bytes(&self) -> (out: Vec<u8>)
        ensures
            out@ == self.bytes(),
            out@.len() == 144,
    {
        let mut out: Vec<u8> = Vec::new();
        put_word(&mut out, self.ru_utime.sec);
        put_word(&mut out, self.ru_utime.usec);
        put_word(&mut out, self.ru_stime.sec);
        put_word(&mut out, self.ru_stime.usec);
        let counters: [isize; 14] = [
            self.ru_maxrss,
            self.ru_ixrss,
            self.ru_idrss,
            self.ru_isrss,
            self.ru_minflt,
            self.ru_majflt,
            self.ru_nswap,
            self.ru_inblock,
            self.ru_oublock,
            self.ru_msgsnd,
            self.ru_msgrcv,
            self.ru_nsignals,
            self.ru_nvcsw,
            self.ru_nivcsw,
        ];
        assert(counters@ =~= self.counters());
        let ghost head = out@;
        assert(head =~= self.ru_utime.bytes() + self.ru_stime.bytes());
        let mut i: usize = 0;
        while i < 14
            invariant
                i <= 14,
                counters@ == self.counters(),
                out@ == head + self.counter_bytes(i as nat),
                out@.len() == 32 + 8 * i,
                head.len() == 32,
            decreases 14 - i,
        {
            put_signed_word(&mut out, counters[i]);
            i += 1;
            assert(out@ =~= head + self.counter_bytes(i as nat));
        }
        out
    }
}

} // verus!
