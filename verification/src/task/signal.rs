//! Signal model: numbers, per-process pending/blocked bitmasks, handler
//! table, default dispositions and the frame pushed for a user handler.

use vstd::prelude::*;
use crate::encoding::{le32, le64, read_le32, read_le64};
use crate::task::user_stack::{lemma_le64_prefix, push_le64};
use vstd::std_specs::bits::{u32_trailing_zeros, axiom_u32_trailing_zeros};

verus! {

/// Signal numbers (POSIX-compatible); each variant's number is given by
/// [`signo`].
#[derive(Debug, Clone, Copy, PartialEq, Eq, Structural)]
pub enum Signal {
    SIGHUP,
    SIGINT,
    SIGQUIT,
    SIGILL,
    SIGTRAP,
    SIGABRT,
    SIGFPE,
    SIGKILL,
    SIGSEGV,
    SIGPIPE,
    SIGALRM,
    SIGTERM,
    SIGCHLD,
    SIGCONT,
    SIGSTOP,
    SIGTSTP,
    SIGTTIN,
    SIGTTOU,
    SIGWINCH,
}

/// The number of each signal.
pub open spec fn signo(s: Signal) -> u8 {
    match s {
        Signal::SIGHUP => 1,
        Signal::SIGINT => 2,
        Signal::SIGQUIT => 3,
        Signal::SIGILL => 4,
        Signal::SIGTRAP => 5,
        Signal::SIGABRT => 6,
        Signal::SIGFPE => 8,
        Signal::SIGKILL => 9,
        Signal::SIGSEGV => 11,
        Signal::SIGPIPE => 13,
        Signal::SIGALRM => 14,
        Signal::SIGTERM => 15,
        Signal::SIGCHLD => 17,
        Signal::SIGCONT => 18,
        Signal::SIGSTOP => 19,
        Signal::SIGTSTP => 20,
        Signal::SIGTTIN => 21,
        Signal::SIGTTOU => 22,
        Signal::SIGWINCH => 28,
    }
}

/// The signal with number `n`, if there is one.
pub open spec fn signal_of(n: u8) -> Option<Signal> {
    if n == 1 { Some(Signal::SIGHUP) }
    else if n == 2 { Some(Signal::SIGINT) }
    else if n == 3 { Some(Signal::SIGQUIT) }
    else if n == 4 { Some(Signal::SIGILL) }
    else if n == 5 { Some(Signal::SIGTRAP) }
    else if n == 6 { Some(Signal::SIGABRT) }
    else if n == 8 { Some(Signal::SIGFPE) }
    else if n == 9 { Some(Signal::SIGKILL) }
    else if n == 11 { Some(Signal::SIGSEGV) }
    else if n == 13 { Some(Signal::SIGPIPE) }
    else if n == 14 { Some(Signal::SIGALRM) }
    else if n == 15 { Some(Signal::SIGTERM) }
    else if n == 17 { Some(Signal::SIGCHLD) }
    else if n == 18 { Some(Signal::SIGCONT) }
    else if n == 19 { Some(Signal::SIGSTOP) }
    else if n == 20 { Some(Signal::SIGTSTP) }
    else if n == 21 { Some(Signal::SIGTTIN) }
    else if n == 22 { Some(Signal::SIGTTOU) }
    else if n == 28 { Some(Signal::SIGWINCH) }
    else { None }
}

/// The bit of a signal in a pending/blocked mask.
pub open spec fn sig_mask(s: Signal) -> u32 {
    1u32 << signo(s)
}

/// Numbers and signals correspond one to one.
pub proof fn lemma_signo_roundtrip(s: Signal, n: u8)
    ensures
        signal_of(signo(s)) == Some(s),
        signal_of(n) matches Some(t) ==> signo(t) == n,
        1 <= signo(s) <= 28,
{
}

impl Signal {
    /// Convert from a raw number.
    pub fn from_u8(n: u8) -> (r: Option<Signal>)
        ensures
            r == signal_of(n),
    {
        match n {
            1 => Some(Signal::SIGHUP),
            2 => Some(Signal::SIGINT),
            3 => Some(Signal::SIGQUIT),
            4 => Some(Signal::SIGILL),
            5 => Some(Signal::SIGTRAP),
            6 => Some(Signal::SIGABRT),
            8 => Some(Signal::SIGFPE),
            9 => Some(Signal::SIGKILL),
            11 => Some(Signal::SIGSEGV),
            13 => Some(Signal::SIGPIPE),
            14 => Some(Signal::SIGALRM),
            15 => Some(Signal::SIGTERM),
            17 => Some(Signal::SIGCHLD),
            18 => Some(Signal::SIGCONT),
            19 => Some(Signal::SIGSTOP),
            20 => Some(Signal::SIGTSTP),
            21 => Some(Signal::SIGTTIN),
            22 => Some(Signal::SIGTTOU),
            28 => Some(Signal::SIGWINCH),
            _ => None,
        }
    }

    /// The signal's number.
    pub fn number(self) -> (r: u8)
        ensures
            r == signo(self),
    {
        match self {
            Signal::SIGHUP => 1,
            Signal::SIGINT => 2,
            Signal::SIGQUIT => 3,
            Signal::SIGILL => 4,
            Signal::SIGTRAP => 5,
            Signal::SIGABRT => 6,
            Signal::SIGFPE => 8,
            Signal::SIGKILL => 9,
            Signal::SIGSEGV => 11,
            Signal::SIGPIPE => 13,
            Signal::SIGALRM => 14,
            Signal::SIGTERM => 15,
            Signal::SIGCHLD => 17,
            Signal::SIGCONT => 18,
            Signal::SIGSTOP => 19,
            Signal::SIGTSTP => 20,
            Signal::SIGTTIN => 21,
            Signal::SIGTTOU => 22,
            Signal::SIGWINCH => 28,
        }
    }

    /// Bitmask for this signal (`1 << number`).
    pub fn mask(self) -> (r: u32)
        ensures
            r == sig_mask(self),
    {
        let n = self.number();
        1u32 << n
    }
}

/// SIG_DFL — use the default action.
pub const SIG_DFL: u64 = 0;
/// SIG_IGN — ignore the signal.
pub const SIG_IGN: u64 = 1;

/// Per-process signal state.
#[derive(Debug, Clone, Copy)]
pub struct SignalState {
    /// Bitmask of pending signals.
    pub pending: u32,
    /// Bitmask of blocked (masked) signals.
    pub blocked: u32,
    /// Per-signal handler addresses (0 = SIG_DFL, 1 = SIG_IGN, other = user fn).
    pub handlers: [u64; 32],
}

/// Pending signals that are not blocked.
pub open spec fn deliverable(s: SignalState) -> u32 {
    s.pending & !s.blocked
}

/// The number of the lowest deliverable signal bit (32 when none).
pub open spec fn lowest_deliverable(s: SignalState) -> u32 {
    u32_trailing_zeros(deliverable(s))
}

/// Default signal disposition.
#[derive(Debug, Clone, Copy, PartialEq, Eq, Structural)]
pub enum SignalAction {
    Terminate,
    Ignore,
    Stop,
    Continue,
}

/// What a signal does when its handler is SIG_DFL.
pub open spec fn default_action_of(sig: Signal) -> SignalAction {
    match sig {
        Signal::SIGCHLD | Signal::SIGCONT | Signal::SIGWINCH => SignalAction::Ignore,
        Signal::SIGSTOP | Signal::SIGTSTP | Signal::SIGTTIN | Signal::SIGTTOU => SignalAction::Stop,
        _ => SignalAction::Terminate,
    }
}

impl SignalState {
    /// Nothing pending, nothing blocked, every handler SIG_DFL.
    pub fn new() -> (r: SignalState)
        ensures
            r.pending == 0,
            r.blocked == 0,
            forall|i: int| 0 <= i < 32 ==> r.handlers@[i] == SIG_DFL,
    {
        SignalState { pending: 0, blocked: 0, handlers: [0; 32] }
    }

    /// Post a signal.
    pub fn send(&mut self, sig: Signal)
        ensures
            final(self).pending == old(self).pending | sig_mask(sig),
            final(self).blocked == old(self).blocked,
            final(self).handlers == old(self).handlers,
    {
        self.pending = self.pending | sig.mask();
    }

    /// True if any unblocked signal is pending.
    pub fn has_pending(&self) -> (r: bool)
        ensures
            r == (deliverable(*self) != 0),
    {
        self.pending & !self.blocked != 0
    }

    /// Consume and return the lowest-numbered pending unblocked signal. When
    /// the lowest deliverable bit is not a known signal number, nothing is
    /// consumed and `None` is returned.
    pub fn take_pending(&mut self) -> (r: Option<Signal>)
        ensures
            deliverable(*old(self)) == 0 ==> r is None && *final(self) == *old(self),
            deliverable(*old(self)) != 0 ==> {
                let b = lowest_deliverable(*old(self));
                match signal_of(b as u8) {
                    None => r is None && *final(self) == *old(self),
                    Some(sig) => r == Some(sig)
                        && final(self).pending == old(self).pending & !sig_mask(sig)
                        && final(self).blocked == old(self).blocked
                        && final(self).handlers == old(self).handlers,
                }
            },
    {
        let deliverable = self.pending & !self.blocked;
        if deliverable == 0 {
            return None;
        }
        proof {
            axiom_u32_trailing_zeros(deliverable);
        }
        let bit = deliverable.trailing_zeros() as u8;
        let sig = match Signal::from_u8(bit) {
            Some(s) => s,
            None => return None,
        };
        self.pending = self.pending & !sig.mask();
        Some(sig)
    }

    /// The handler address for a signal number (SIG_DFL beyond the table).
    pub fn get_handler(&self, sig_num: u8) -> (r: u64)
        ensures
            sig_num < 32 ==> r == self.handlers@[sig_num as int],
            sig_num >= 32 ==> r == SIG_DFL,
    {
        if (sig_num as usize) < 32 {
            self.handlers[sig_num as usize]
        } else {
            SIG_DFL
        }
    }

    /// Set the handler address for a signal number; numbers beyond the
    /// table are ignored.
    pub fn set_handler(&mut self, sig_num: u8, handler: u64)
        ensures
            final(self).pending == old(self).pending,
            final(self).blocked == old(self).blocked,
            sig_num < 32 ==> final(self).handlers@ == old(self).handlers@.update(sig_num as int, handler),
            sig_num >= 32 ==> final(self).handlers == old(self).handlers,
    {
        if (sig_num as usize) < 32 {
            self.handlers[sig_num as usize] = handler;
        }
    }

    /// Default action for a signal.
    pub fn default_action(sig: Signal) -> (r: SignalAction)
        ensures
            r == default_action_of(sig),
            r == SignalAction::Ignore <==> (signo(sig) == 17 || signo(sig) == 18 || signo(sig) == 28),
            r == SignalAction::Stop <==> (19 <= signo(sig) <= 22),
    {
        match sig {
            Signal::SIGCHLD | Signal::SIGCONT | Signal::SIGWINCH => SignalAction::Ignore,
            Signal::SIGSTOP | Signal::SIGTSTP | Signal::SIGTTIN | Signal::SIGTTOU => SignalAction::Stop,
            _ => SignalAction::Terminate,
        }
    }
}

/// The default disposition of every signal: a child's exit (SIGCHLD),
/// SIGCONT and a window-size change (SIGWINCH) are ignored; SIGSTOP and
/// the terminal stops SIGTSTP, SIGTTIN and SIGTTOU stop the process; every
/// other signal terminates it.
pub proof fn lemma_default_actions()
    ensures
        default_action_of(Signal::SIGCHLD) == SignalAction::Ignore,
        default_action_of(Signal::SIGCONT) == SignalAction::Ignore,
        default_action_of(Signal::SIGWINCH) == SignalAction::Ignore,
        default_action_of(Signal::SIGSTOP) == SignalAction::Stop,
        default_action_of(Signal::SIGTSTP) == SignalAction::Stop,
        default_action_of(Signal::SIGTTIN) == SignalAction::Stop,
        default_action_of(Signal::SIGTTOU) == SignalAction::Stop,
        default_action_of(Signal::SIGHUP) == SignalAction::Terminate,
        default_action_of(Signal::SIGINT) == SignalAction::Terminate,
        default_action_of(Signal::SIGQUIT) == SignalAction::Terminate,
        default_action_of(Signal::SIGILL) == SignalAction::Terminate,
        default_action_of(Signal::SIGTRAP) == SignalAction::Terminate,
        default_action_of(Signal::SIGABRT) == SignalAction::Terminate,
        default_action_of(Signal::SIGFPE) == SignalAction::Terminate,
        default_action_of(Signal::SIGKILL) == SignalAction::Terminate,
        default_action_of(Signal::SIGSEGV) == SignalAction::Terminate,
        default_action_of(Signal::SIGPIPE) == SignalAction::Terminate,
        default_action_of(Signal::SIGALRM) == SignalAction::Terminate,
        default_action_of(Signal::SIGTERM) == SignalAction::Terminate,
        forall|sig: Signal| #[trigger] default_action_of(sig) == SignalAction::Ignore
            <==> (signo(sig) == 17 || signo(sig) == 18 || signo(sig) == 28),
        forall|sig: Signal| #[trigger] default_action_of(sig) == SignalAction::Stop
            <==> (19 <= signo(sig) <= 22),
{
}

/// A signal that `take_pending` hands out was pending and not blocked, and
/// no lower-numbered bit was deliverable.
pub proof fn lemma_taken_signal_is_lowest_deliverable(s: SignalState, sig: Signal)
    requires
        deliverable(s) != 0,
        signal_of(lowest_deliverable(s) as u8) == Some(sig),
    ensures
        s.pending & sig_mask(sig) != 0,
        s.blocked & sig_mask(sig) == 0,
        forall|j: u32| j < signo(sig) ==> #[trigger] ((deliverable(s) >> j) & 1u32) == 0u32,
{
    let d = deliverable(s);
    axiom_u32_trailing_zeros(d);
    let b = lowest_deliverable(s);
    lemma_signo_roundtrip(sig, b as u8);
    assert(b < 32);
    assert(signo(sig) as u32 == b);
    let p = s.pending;
    let bl = s.blocked;
    let n = signo(sig) as u32;
    assert(((p & !bl) >> n) & 1u32 == 1u32 && n < 32 ==> p & (1u32 << n) != 0 && bl & (1u32 << n) == 0)
        by (bit_vector);
    assert(1u32 << signo(sig) == 1u32 << n);
}

/// Sending a signal makes it pending, and a signal that is not blocked is
/// then deliverable.
pub proof fn lemma_send_makes_pending(s: SignalState, sig: Signal)
    ensures
        (s.pending | sig_mask(sig)) & sig_mask(sig) != 0,
        s.blocked & sig_mask(sig) == 0 ==> ((s.pending | sig_mask(sig)) & !s.blocked) != 0,
{
    let n = signo(sig);
    lemma_signo_roundtrip(sig, n);
    let p = s.pending;
    let bl = s.blocked;
    assert(n < 32 ==> (p | (1u32 << n)) & (1u32 << n) != 0) by (bit_vector);
    assert(n < 32 && bl & (1u32 << n) == 0 ==> ((p | (1u32 << n)) & !bl) != 0) by (bit_vector);
}

/// Frame written to the user stack when delivering a signal with a user
/// handler; `sys_sigreturn` consumes it to restore the interrupted context.
/// Fifteen saved general-purpose registers, the interrupted rip/rsp/rflags,
/// the saved signal mask, the signal number and padding: 160 bytes.
#[derive(Debug, Clone, Copy, Default)]
pub struct SignalFrame {
    pub rax: u64,
    pub rbx: u64,
    pub rcx: u64,
    pub rdx: u64,
    pub rsi: u64,
    pub rdi: u64,
    pub rbp: u64,
    pub r8: u64,
    pub r9: u64,
    pub r10: u64,
    pub r11: u64,
    pub r12: u64,
    pub r13: u64,
    pub r14: u64,
    pub r15: u64,
    pub rip: u64,
    pub rsp: u64,
    pub rflags: u64,
    pub saved_sigmask: u64,
    pub signal_number: u32,
    pub _pad: u32,
}

/// Size in bytes of a [`SignalFrame`]: 19 eight-byte fields and 2 four-byte ones.
pub const SIGNAL_FRAME_SIZE: usize = 160;

/// The eight-byte fields of a signal frame, in layout order: the
/// general-purpose registers rax to r15, then rip, rsp, rflags and the
/// saved signal mask.
pub open spec fn frame_words(f: SignalFrame) -> Seq<u64> {
    seq![f.rax, f.rbx, f.rcx, f.rdx, f.rsi, f.rdi, f.rbp, f.r8, f.r9, f.r10, f.r11, f.r12, f.r13, f.r14, f.r15,
        f.rip, f.rsp, f.rflags, f.saved_sigmask]
}

/// `b` is the frame `f` as a handler finds it on its stack (C layout,
/// little-endian): the eight-byte fields at offsets 0, 8, ..., 144 in
/// layout order, the signal number at 152 and the padding at 156.
pub open spec fn frame_image(b: Seq<u8>, f: SignalFrame) -> bool {
    &&& b.len() == SIGNAL_FRAME_SIZE
    &&& forall|k: int| 0 <= k < 19 ==> #[trigger] le64(b, 8 * k) == frame_words(f)[k]
    &&& le32(b, 152) == f.signal_number
    &&& le32(b, 156) == f._pad
}

impl SignalFrame {
    /// The bytes of this frame as it is laid out on the user stack (see
    /// [`frame_image`]).
    pub fn to_bytes(&self) -> (r: Vec<u8>)
        ensures
            frame_image(r@, *self),
    {
        let words: [u64; 19] = [
            self.rax, self.rbx, self.rcx, self.rdx, self.rsi, self.rdi, self.rbp, self.r8, self.r9, self.r10,
            self.r11, self.r12, self.r13, self.r14, self.r15, self.rip, self.rsp, self.rflags, self.saved_sigmask,
        ];
        assert(words@ =~= frame_words(*self));
        let mut img: Vec<u8> = Vec::new();
        let mut i: usize = 0;
        while i < 19
            invariant
                i <= 19,
                words@ == frame_words(*self),
                img@.len() == 8 * i,
                forall|k: int| 0 <= k < i ==> #[trigger] le64(img@, 8 * k) == words@[k],
            decreases 19 - i,
        {
            let ghost before = img@;
            push_le64(&mut img, words[i]);
            assert forall|k: int| 0 <= k < i + 1 implies #[trigger] le64(img@, 8 * k) == words@[k] by {
                if k < i {
                    lemma_le64_prefix(before, img@, 8 * k);
                }
            }
            i = i + 1;
        }
        let ghost before = img@;
        let last = self.signal_number as u64 + self._pad as u64 * 0x1_0000_0000;
        push_le64(&mut img, last);
        proof {
            assert forall|k: int| 0 <= k < 19 implies #[trigger] le64(img@, 8 * k) == frame_words(*self)[k] by {
                lemma_le64_prefix(before, img@, 8 * k);
            }
            lemma_le32_bound(img@, 152);
            lemma_le32_bound(img@, 156);
        }
        img
    }

    /// Read a frame back from the bytes `b` a handler returns with (see
    /// [`frame_image`]).
    pub fn from_bytes(b: &[u8]) -> (r: SignalFrame)
        requires
            b@.len() == SIGNAL_FRAME_SIZE,
        ensures
            frame_image(b@, r),
    {
        let r = SignalFrame {
            rax: read_le64(b, 0),
            rbx: read_le64(b, 8),
            rcx: read_le64(b, 16),
            rdx: read_le64(b, 24),
            rsi: read_le64(b, 32),
            rdi: read_le64(b, 40),
            rbp: read_le64(b, 48),
            r8: read_le64(b, 56),
            r9: read_le64(b, 64),
            r10: read_le64(b, 72),
            r11: read_le64(b, 80),
            r12: read_le64(b, 88),
            r13: read_le64(b, 96),
            r14: read_le64(b, 104),
            r15: read_le64(b, 112),
            rip: read_le64(b, 120),
            rsp: read_le64(b, 128),
            rflags: read_le64(b, 136),
            saved_sigmask: read_le64(b, 144),
            signal_number: read_le32(b, 152),
            _pad: read_le32(b, 156),
        };
        assert forall|k: int| 0 <= k < 19 implies #[trigger] le64(b@, 8 * k) == frame_words(r)[k] by {
            assert(frame_words(r) =~= seq![r.rax, r.rbx, r.rcx, r.rdx, r.rsi, r.rdi, r.rbp, r.r8, r.r9, r.r10,
                r.r11, r.r12, r.r13, r.r14, r.r15, r.rip, r.rsp, r.rflags, r.saved_sigmask]);
        }
        r
    }

    /// Bytes a `SignalFrame` occupies on the user stack, rounded up to 16
    /// so the C ABI's stack alignment holds when the handler is entered.
    pub fn aligned_size() -> (r: usize)
        ensures
            r == (SIGNAL_FRAME_SIZE + 15) / 16 * 16,
            r == 160,
    {
        (SIGNAL_FRAME_SIZE + 15) / 16 * 16
    }
}

/// A little-endian `u32` fits in 32 bits.
proof fn lemma_le32_bound(b: Seq<u8>, o: int)
    requires
        0 <= o,
        o + 4 <= b.len(),
    ensures
        0 <= le32(b, o) < 0x1_0000_0000,
{
}

/// A frame's image holds that frame and no other: what a handler's stack
/// gives back is the frame that was written there, field for field.
pub proof fn lemma_frame_image_unique(b: Seq<u8>, f: SignalFrame, g: SignalFrame)
    requires
        frame_image(b, f),
        frame_image(b, g),
    ensures
        f == g,
{
    assert forall|k: int| 0 <= k < 19 implies frame_words(f)[k] == frame_words(g)[k] by {
        assert(le64(b, 8 * k) == frame_words(f)[k]);
        assert(le64(b, 8 * k) == frame_words(g)[k]);
    }
    assert(frame_words(f)[0] == frame_words(g)[0]);
    assert(frame_words(f)[18] == frame_words(g)[18]);
}

} // verus!
