//! The saved register context of a task, with the task's display name and
//! pid kept beside it for scheduling traces.
use vstd::prelude::*;
use vstd::string::StringSliceAdditionalSpecFns;

verus! {

/// Capacity of the name buffer; the last byte always stays a terminating zero.
pub const NAME_BUF_LEN: usize = 24;

/// The bytes kept of a name: at most `NAME_BUF_LEN - 1` of them, the rest
/// of the buffer zero.
pub open spec fn name_buf_of(bytes: Seq<u8>) -> Seq<u8> {
    Seq::new(
        NAME_BUF_LEN as nat,
        |i: int| if i < bytes.len() && i < NAME_BUF_LEN - 1 { bytes[i] } else { 0u8 },
    )
}

/// `n` is where the stored name ends: no zero byte before it, and a zero byte
/// at it unless it is the end of the buffer.
pub open spec fn is_name_end(buf: Seq<u8>, n: int) -> bool {
    &&& 0 <= n <= buf.len()
    &&& forall|i: int| 0 <= i < n ==> buf[i] != 0
    &&& n < buf.len() ==> buf[n] == 0
}

/// What `debug_name` shows of the bytes before the end of the stored name:
/// the bytes themselves when they are valid UTF-8, otherwise nothing.
pub open spec fn shown_name(stored: Seq<u8>) -> Seq<u8> {
    if vstd::utf8::valid_utf8(stored) {
        stored
    } else {
        Seq::empty()
    }
}

/// The end of the stored name is unique.
pub proof fn lemma_name_end_unique(buf: Seq<u8>, n: int, m: int)
    requires
        is_name_end(buf, n),
        is_name_end(buf, m),
    ensures
        n == m,
{
    if n < m {
        assert(buf[n] != 0);
    } else if m < n {
        assert(buf[m] != 0);
    }
}

/// A name with no zero byte comes back from the buffer: the stored name
/// ends right after it when it fits (at most `NAME_BUF_LEN - 1` bytes), and
/// after its first `NAME_BUF_LEN - 1` bytes otherwise; a fitting name whose
/// bytes are valid UTF-8 is shown whole.
pub proof fn lemma_name_round_trip(bytes: Seq<u8>, n: int)
    requires
        forall|i: int| 0 <= i < bytes.len() ==> bytes[i] != 0,
        is_name_end(name_buf_of(bytes), n),
    ensures
        n == (if bytes.len() < NAME_BUF_LEN { bytes.len() as int } else { NAME_BUF_LEN - 1 }),
        name_buf_of(bytes).take(n) == bytes.take(n),
        bytes.len() < NAME_BUF_LEN && vstd::utf8::valid_utf8(bytes) ==> shown_name(name_buf_of(bytes).take(n))
            == bytes,
{
    let buf = name_buf_of(bytes);
    let m: int = if bytes.len() < NAME_BUF_LEN { bytes.len() as int } else { NAME_BUF_LEN - 1 };
    assert(is_name_end(buf, m)) by {
        assert forall|i: int| 0 <= i < m implies buf[i] != 0 by {
            assert(buf[i] == bytes[i]);
        }
    }
    lemma_name_end_unique(buf, n, m);
    assert(buf.take(n) =~= bytes.take(n));
    if bytes.len() < NAME_BUF_LEN {
        assert(bytes.take(n) =~= bytes);
    }
}

/// Reads the bytes as UTF-8 (`core::str::from_utf8`): the string over the
/// same bytes when they are valid UTF-8, `None` otherwise.
#[verifier::external_body]
fn str_from_utf8(bytes: &[u8]) -> (r: Option<&str>)
    ensures
        r is Some <==> vstd::utf8::valid_utf8(bytes@),
        r matches Some(s) ==> s.spec_bytes() == bytes@,
{
    core::str::from_utf8(bytes).ok()
}

/// The registers a task keeps across a switch (return address, stack pointer
/// and the callee-saved `s0`..`s11`), with its name and pid.
pub struct TaskContext {
    ra: usize,
    sp: usize,
    s: [usize; 12],
    name: [u8; 24],
    pid: usize,
}

impl TaskContext {
    /// Return address after the switch.
    pub closed spec fn ra_spec(&self) -> usize {
        self.ra
    }

    /// Stack pointer after the switch.
    pub closed spec fn sp_spec(&self) -> usize {
        self.sp
    }

    /// The callee-saved registers.
    pub closed spec fn saved_spec(&self) -> Seq<usize> {
        self.s@
    }

    /// The name buffer.
    pub closed spec fn name_spec(&self) -> Seq<u8> {
        self.name@
    }

    /// The pid.
    pub closed spec fn pid_spec(&self) -> usize {
        self.pid
    }

    /// The name buffer for `name`: its first bytes, at most one less than
    /// the buffer holds, then zeros.
    fn make_name_buf(name: &str) -> (r: [u8; 24])
        ensures
            r@ == name_buf_of(name.spec_bytes()),
    {
        let mut buf = [0u8; 24];
        let bytes = name.as_bytes();
        let len: usize = if bytes.len() < NAME_BUF_LEN - 1 {
            bytes.len()
        } else {
            NAME_BUF_LEN - 1
        };
        let mut i: usize = 0;
        while i < len
            invariant
                i <= len,
                len <= bytes@.len(),
                len <= NAME_BUF_LEN - 1,
                len == bytes@.len() || len == NAME_BUF_LEN - 1,
                bytes@ == name.spec_bytes(),
                buf@.len() == NAME_BUF_LEN,
                forall|j: int| 0 <= j < i ==> buf@[j] == bytes@[j],
                forall|j: int| i <= j < NAME_BUF_LEN ==> buf@[j] == 0u8,
            decreases len - i,
        {
            buf[i] = bytes[i];
            i = i + 1;
        }
        assert(buf@ =~= name_buf_of(name.spec_bytes()));
        buf
    }

    /// A context with every register zero, under the given name and pid.
    pub fn zero_init(name: &str, pid: usize) -> (r: Self)
        ensures
            r.ra_spec() == 0,
            r.sp_spec() == 0,
            r.saved_spec() == Seq::new(12, |i: int| 0usize),
            r.name_spec() == name_buf_of(name.spec_bytes()),
            r.pid_spec() == pid,
    {
        let name_buf = Self::make_name_buf(name);
        let r = TaskContext { ra: 0, sp: 0, s: [0; 12], name: name_buf, pid };
        assert(r.s@ =~= Seq::new(12, |i: int| 0usize));
        r
    }

    /// A context that, once switched to, returns into `trap_return_addr` on
    /// the kernel stack `kstack_ptr`.
    pub fn goto_trap_return(trap_return_addr: usize, kstack_ptr: usize, name: &str, pid: usize) -> (r: Self)
        ensures
            r.ra_spec() == trap_return_addr,
            r.sp_spec() == kstack_ptr,
            r.saved_spec() == Seq::new(12, |i: int| 0usize),
            r.name_spec() == name_buf_of(name.spec_bytes()),
            r.pid_spec() == pid,
    {
        let name_buf = Self::make_name_buf(name);
        let r = TaskContext { ra: trap_return_addr, sp: kstack_ptr, s: [0; 12], name: name_buf, pid };
        assert(r.s@ =~= Seq::new(12, |i: int| 0usize));
        r
    }

    /// The return address.
    pub fn ra(&self) -> (r: usize)
        ensures
            r == self.ra_spec(),
    {
        self.ra
    }

    /// The stack pointer.
    pub fn sp(&self) -> (r: usize)
        ensures
            r == self.sp_spec(),
    {
        self.sp
    }

    /// The callee-saved register `s{index}`.
    pub fn saved(&self, index: usize) -> (r: usize)
        requires
            index < 12,
        ensures
            r == self.saved_spec()[index as int],
    {
        self.s[index]
    }

    /// The task's name: the bytes of the buffer before its first zero byte,
    /// or the empty string when they are not valid UTF-8.
    pub fn debug_name(&self) -> (r: &str)
        ensures
            exists|n: int|
                is_name_end(self.name_spec(), n) && r.spec_bytes() == shown_name(
                    self.name_spec().take(n),
                ),
    {
        let mut n: usize = 0;
        while n < NAME_BUF_LEN && self.name[n] != 0
            invariant
                n <= NAME_BUF_LEN,
                self.name@.len() == NAME_BUF_LEN,
                forall|i: int| 0 <= i < n ==> self.name@[i] != 0,
            decreases NAME_BUF_LEN - n,
        {
            n = n + 1;
        }
        assert(is_name_end(self.name@, n as int));
        let (head, _) = self.name.as_slice().split_at(n);
        match str_from_utf8(head) {
            Some(s) => {
                assert(head@ =~= self.name@.take(n as int));
                assert(is_name_end(self.name_spec(), n as int) && s.spec_bytes() == shown_name(
                    self.name_spec().take(n as int),
                ));
                s
            },
            None => {
                let e = "";
                proof {
                    reveal_strlit("");
                    assert(head@ =~= self.name@.take(n as int));
                }
                assert(e.spec_bytes() =~= Seq::<u8>::empty());
                assert(is_name_end(self.name_spec(), n as int) && e.spec_bytes() == shown_name(
                    self.name_spec().take(n as int),
                ));
                e
            },
        }
    }

    /// The task's pid.
    pub fn debug_pid(&self) -> (r: usize)
        ensures
            r == self.pid_spec(),
    {
        self.pid
    }

    /// Renames the task; the registers and pid stay.
    pub fn set_name(&mut self, name: &str)
        ensures
            final(self).name_spec() == name_buf_of(name.spec_bytes()),
            final(self).ra_spec() == old(self).ra_spec(),
            final(self).sp_spec() == old(self).sp_spec(),
            final(self).saved_spec() == old(self).saved_spec(),
            final(self).pid_spec() == old(self).pid_spec(),
    {
        self.name = Self::make_name_buf(name);
    }

    /// Renames the task and gives it a new pid; the registers stay.
    pub fn set_name_pid(&mut self, name: &str, pid: usize)
        ensures
            final(self).name_spec() == name_buf_of(name.spec_bytes()),
            final(self).pid_spec() == pid,
            final(self).ra_spec() == old(self).ra_spec(),
            final(self).sp_spec() == old(self).sp_spec(),
            final(self).saved_spec() == old(self).saved_spec(),
    {
        self.name = Self::make_name_buf(name);
        self.pid = pid;
    }
}

} // verus!
