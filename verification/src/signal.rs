//! The pending-signal bitset of a process.
use vstd::prelude::*;

verus! {

pub const SIGHUP: u32 = 1;

pub const SIGINT: u32 = 2;

pub const SIGILL: u32 = 4;

pub const SIGABRT: u32 = 6;

pub const SIGBUS: u32 = 7;

pub const SIGFPE: u32 = 8;

pub const SIGKILL: u32 = 9;

pub const SIGSEGV: u32 = 11;

pub const SIGTERM: u32 = 15;

pub const SIGCHLD: u32 = 17;

pub const SIGSTOP: u32 = 19;

/// The bits of every signal the kernel knows.
pub const ALL_SIGNALS: u32 = 0x000A_8BD6;

/// A set of signals, one bit per signal number.
#[derive(Clone, Copy, Debug, PartialEq, Eq, Structural)]
pub struct SignalFlags {
    pub bits: u32,
}

/// Whether `signum` is one of the signals the kernel knows.
pub open spec fn is_known_signal(signum: int) -> bool {
    signum == 1 || signum == 2 || signum == 4 || signum == 6 || signum == 7 || signum == 8
        || signum == 9 || signum == 11 || signum == 15 || signum == 17 || signum == 19
}

/// Whether bit `signum` is set in `bits`.
pub open spec fn bit_is_set(bits: u32, signum: u32) -> bool {
    (bits >> signum) & 1 == 1
}

proof fn lemma_union_bits(a: u32, b: u32)
    ensures
        forall|n: u32| n < 32 ==> (#[trigger] bit_is_set(a | b, n) <==> bit_is_set(a, n) || bit_is_set(b, n)),
{
    assert(forall|n: u32|
        n < 32 ==> ((#[trigger] ((a | b) >> n) & 1 == 1) <==> ((a >> n) & 1 == 1) || ((b >> n) & 1
            == 1))) by (bit_vector);
}

proof fn lemma_single_bit(bits: u32, s: u32)
    requires
        s < 32,
    ensures
        bits & (1u32 << s) != 0 <==> bit_is_set(bits, s),
        forall|n: u32| n < 32 ==> (#[trigger] bit_is_set(1u32 << s, n) <==> n == s),
        bit_is_set(0, s) == false,
{
    assert(s < 32 ==> (bits & (1u32 << s) != 0 <==> (bits >> s) & 1 == 1)) by (bit_vector);
    assert(forall|n: u32| n < 32 && s < 32 ==> ((#[trigger] ((1u32 << s) >> n) & 1 == 1) <==> n == s))
        by (bit_vector);
    assert(s < 32 ==> (0u32 >> s) & 1 == 0) by (bit_vector);
}

impl SignalFlags {
    /// Whether signal number `signum` is in the set.
    pub open spec fn has(self, signum: int) -> bool {
        0 <= signum < 32 && bit_is_set(self.bits, signum as u32)
    }

    /// The set holds no bit but those of the signals the kernel knows.
    pub open spec fn wf(self) -> bool {
        self.bits & !ALL_SIGNALS == 0
    }

    /// The lowest fatal signal in the set, if there is one.
    pub open spec fn first_fatal(self) -> Option<int> {
        if self.has(4) {
            Some(4int)
        } else if self.has(7) {
            Some(7int)
        } else if self.has(8) {
            Some(8int)
        } else if self.has(9) {
            Some(9int)
        } else if self.has(11) {
            Some(11int)
        } else {
            None
        }
    }

    /// The empty set.
    pub fn empty() -> (r: Self)
        ensures
            forall|n: int| !r.has(n),
            r.bits == 0,
            r.wf(),
    {
        let r = SignalFlags { bits: 0 };
        proof {
            assert(0u32 & !0x000A_8BD6u32 == 0) by (bit_vector);
            assert forall|n: int| !(#[trigger] r.has(n)) by {
                if 0 <= n < 32 {
                    lemma_single_bit(0, n as u32);
                }
            }
        }
        r
    }

    /// The raw bits.
    pub fn bits(&self) -> (r: u32)
        ensures
            r == self.bits,
    {
        self.bits
    }

    /// The set with exactly these bits, if every one of them is a known signal.
    pub fn from_bits(bits: u32) -> (r: Option<Self>)
        ensures
            r is Some <==> (SignalFlags { bits }).wf(),
            r matches Some(f) ==> f.bits == bits,
    {
        if bits & !ALL_SIGNALS == 0 {
            Some(SignalFlags { bits })
        } else {
            None
        }
    }

    /// The set that holds signal number `signum` alone, if the kernel knows it.
    pub fn from_signum(signum: u32) -> (r: Option<Self>)
        ensures
            r is Some <==> is_known_signal(signum as int),
            r matches Some(f) ==> f.wf() && f.bits == 1u32 << signum && forall|n: int|
                f.has(n) <==> n == signum,
    {
        if signum == SIGHUP || signum == SIGINT || signum == SIGILL || signum == SIGABRT || signum
            == SIGBUS || signum == SIGFPE || signum == SIGKILL || signum == SIGSEGV || signum
            == SIGTERM || signum == SIGCHLD || signum == SIGSTOP {
            let f = SignalFlags { bits: 1u32 << signum };
            proof {
                lemma_single_bit(0, signum);
                assert(signum == 1 || signum == 2 || signum == 4 || signum == 6 || signum == 7
                    || signum == 8 || signum == 9 || signum == 11 || signum == 15 || signum == 17
                    || signum == 19 ==> (1u32 << signum) & !0x000A_8BD6u32 == 0) by (bit_vector);
                assert forall|n: int| #[trigger] f.has(n) <==> n == signum by {
                    if 0 <= n < 32 {
                        assert(bit_is_set(1u32 << signum, n as u32) <==> n as u32 == signum);
                    }
                }
            }
            Some(f)
        } else {
            None
        }
    }

    /// Whether no signal is pending.
    pub fn is_empty(&self) -> (r: bool)
        ensures
            r <==> self.bits == 0,
            r ==> forall|n: int| !self.has(n),
    {
        proof {
            if self.bits == 0 {
                assert forall|n: int| !(#[trigger] self.has(n)) by {
                    if 0 <= n < 32 {
                        lemma_single_bit(0, n as u32);
                    }
                }
            }
        }
        self.bits == 0
    }

    /// Whether signal number `signum` is in the set.
    pub fn contains_signum(&self, signum: u32) -> (r: bool)
        ensures
            r <==> self.has(signum as int),
    {
        if signum < 32 {
            proof {
                lemma_single_bit(self.bits, signum);
            }
            self.bits & (1u32 << signum) != 0
        } else {
            false
        }
    }

    /// Adds every signal of `other` to the set.
    pub fn insert(&mut self, other: SignalFlags)
        ensures
            final(self).bits == old(self).bits | other.bits,
            forall|n: int| final(self).has(n) <==> old(self).has(n) || other.has(n),
            old(self).wf() && other.wf() ==> final(self).wf(),
    {
        proof {
            lemma_union_bits(self.bits, other.bits);
            let a = self.bits;
            let b = other.bits;
            assert(a & !0x000A_8BD6u32 == 0 && b & !0x000A_8BD6u32 == 0 ==> (a | b) & !0x000A_8BD6u32
                == 0) by (bit_vector);
            let f = SignalFlags { bits: self.bits | other.bits };
            assert forall|n: int| #[trigger] f.has(n) <==> old(self).has(n) || other.has(n) by {
                if 0 <= n < 32 {
                    assert(bit_is_set(self.bits | other.bits, n as u32) <==> bit_is_set(
                        self.bits,
                        n as u32,
                    ) || bit_is_set(other.bits, n as u32));
                }
            }
        }
        self.bits = self.bits | other.bits;
    }

    /// The exit code and the message of the lowest fatal signal that is
    /// pending: the exit code is the negated signal number.
    pub fn check_error(&self) -> (r: Option<(i32, &'static str)>)
        ensures
            r is Some <==> self.first_fatal() is Some,
            r matches Some(e) ==> e.0 == -self.first_fatal().unwrap() && e.1@ == fatal_message(
                self.first_fatal().unwrap(),
            ),
    {
        if self.contains_signum(SIGILL) {
            Some((-4, "Illegal Instruction, SIGILL=4"))
        } else if self.contains_signum(SIGBUS) {
            Some((-7, "Bus Error, SIGBUS=7"))
        } else if self.contains_signum(SIGFPE) {
            Some((-8, "Erroneous Arithmetic Operation, SIGFPE=8"))
        } else if self.contains_signum(SIGKILL) {
            Some((-9, "Killed, SIGKILL=9"))
        } else if self.contains_signum(SIGSEGV) {
            Some((-11, "Segmentation Fault, SIGSEGV=11"))
        } else {
            None
        }
    }
}

/// The message the kernel logs when a process dies of fatal signal `signum`.
pub open spec fn fatal_message(signum: int) -> Seq<char> {
    if signum == 4 {
        "Illegal Instruction, SIGILL=4"@
    } else if signum == 7 {
        "Bus Error, SIGBUS=7"@
    } else if signum == 8 {
        "Erroneous Arithmetic Operation, SIGFPE=8"@
    } else if signum == 9 {
        "Killed, SIGKILL=9"@
    } else {
        "Segmentation Fault, SIGSEGV=11"@
    }
}

} // verus!
