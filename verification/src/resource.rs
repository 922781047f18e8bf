//! Per-process file descriptors.
//!
//! A descriptor table maps small fd numbers to resources. Descriptors 0, 1
//! and 2 are pre-opened as stdin, stdout and stderr; `open` hands out the
//! smallest free fd from 3 upward. An open file carries its contents and a
//! cursor; the console resources move bytes between the caller and the input
//! buffer or the screen.

use vstd::prelude::*;

use crate::input::InputBuffer;
use crate::input::try_pop_key;

verus! {

/// An opened file: its bytes and the read cursor.
pub struct FileContent {
    pub data: Vec<u8>,
    pub offset: usize,
}

impl FileContent {
    pub open spec fn wf(self) -> bool {
        self.offset <= self.data@.len()
    }

    /// A freshly opened file positioned at its start.
    pub fn new(data: Vec<u8>) -> (f: FileContent)
        ensures
            f.data == data,
            f.offset == 0,
            f.wf(),
    {
        FileContent { data, offset: 0 }
    }
}

/// What an fd can refer to.
pub enum Resource {
    Stdin,
    Stdout,
    Stderr,
    File(FileContent),
}

impl Resource {
    pub open spec fn wf(self) -> bool {
        match self {
            Resource::File(f) => f.wf(),
            _ => true,
        }
    }
}

/// Number of descriptor slots.
pub const FD_SLOTS: usize = 256;

/// The descriptor table: slot `fd` holds the resource open under that fd.
pub struct ResourceSet {
    pub slots: Vec<Option<Resource>>,
}

impl ResourceSet {
    pub open spec fn wf(self) -> bool {
        &&& self.slots@.len() == FD_SLOTS
        &&& forall|i: int|
            0 <= i < self.slots@.len() ==> match #[trigger] self.slots@[i] {
                Some(r) => r.wf(),
                None => true,
            }
    }

    pub open spec fn spec_get(self, fd: u8) -> Option<Resource> {
        self.slots@[fd as int]
    }

    /// The standard table: stdin, stdout, stderr and nothing else.
    pub fn new() -> (s: ResourceSet)
        ensures
            s.wf(),
            s.spec_get(0) == Some(Resource::Stdin),
            s.spec_get(1) == Some(Resource::Stdout),
            s.spec_get(2) == Some(Resource::Stderr),
            forall|fd: u8| 3 <= fd ==> #[trigger] s.spec_get(fd) is None,
    {
        let mut slots: Vec<Option<Resource>> = Vec::new();
        slots.push(Some(Resource::Stdin));
        slots.push(Some(Resource::Stdout));
        slots.push(Some(Resource::Stderr));
        let mut i: usize = 3;
        while i < FD_SLOTS
            invariant
                3 <= i <= FD_SLOTS,
                slots@.len() == i,
                slots@[0] == Some(Resource::Stdin),
                slots@[1] == Some(Resource::Stdout),
                slots@[2] == Some(Resource::Stderr),
                forall|j: int| 3 <= j < i ==> #[trigger] slots@[j] is None,
            decreases FD_SLOTS - i,
        {
            slots.push(None);
            i = i + 1;
        }
        ResourceSet { slots }
    }

    /// Open `res` under the smallest free fd at or above 3; `None` when the
    /// table is full.
    pub fn open(&mut self, res: Resource) -> (r: Option<u8>)
        requires
            old(self).wf(),
            res.wf(),
        ensures
            final(self).wf(),
            match r {
                Some(fd) => {
                    &&& 3 <= fd
                    &&& old(self).spec_get(fd) is None
                    &&& final(self).slots@ == old(self).slots@.update(fd as int, Some(res))
                    &&& forall|fd2: u8|
                        3 <= fd2 < fd ==> #[trigger] old(self).spec_get(fd2) is Some
                },
                None => {
                    &&& *final(self) == *old(self)
                    &&& forall|fd2: u8| 3 <= fd2 ==> #[trigger] old(self).spec_get(fd2) is Some
                },
            },
    {
        let mut fd: usize = 3;
        while fd < FD_SLOTS
            invariant
                old(self).wf(),
                *self == *old(self),
                res.wf(),
                3 <= fd <= FD_SLOTS,
                forall|fd2: u8| 3 <= fd2 < fd ==> #[trigger] old(self).spec_get(fd2) is Some,
            decreases FD_SLOTS - fd,
        {
            if self.slots[fd].is_none() {
                self.slots[fd] = Some(res);
                return Some(fd as u8);
            }
            fd = fd + 1;
        }
        proof {
            assert forall|fd2: u8| 3 <= fd2 implies #[trigger] old(self).spec_get(fd2)
                is Some by {
                assert(old(self).spec_get(fd2) == old(self).slots@[fd2 as int]);
            }
        }
        None
    }

    /// Drop whatever is open under `fd`; reports whether anything was.
    pub fn close(&mut self, fd: u8) -> (r: bool)
        requires
            old(self).wf(),
        ensures
            final(self).wf(),
            r == (old(self).spec_get(fd) is Some),
            final(self).slots@ == old(self).slots@.update(fd as int, None::<Resource>),
    {
        let present = self.slots[fd as usize].is_some();
        self.slots[fd as usize] = None;
        present
    }

    /// Read up to `len` bytes from `fd` into `buf` (cleared first): from the
    /// input buffer for stdin, from the file contents at the cursor for a
    /// file. Returns how many bytes were read; an unknown fd or a console
    /// output stream reads zero bytes. Stdin does not block: an empty input
    /// buffer reads zero bytes.
    pub fn read(
        &mut self,
        fd: u8,
        len: usize,
        buf: &mut Vec<u8>,
        input: &mut InputBuffer,
    ) -> (r: isize)
        requires
            old(self).wf(),
            len <= isize::MAX as usize,
        ensures
            final(self).wf(),
            0 <= r <= len,
            final(buf)@.len() == r,
            final(input).capacity() == old(input).capacity(),
            match old(self).spec_get(fd) {
                Some(Resource::Stdin) => {
                    let k = if old(input).contents().len() < len {
                        old(input).contents().len() as int
                    } else {
                        len as int
                    };
                    &&& r == k
                    &&& final(buf)@ == old(input).contents().take(k)
                    &&& final(input).contents() == old(input).contents().skip(k)
                    &&& *final(self) == *old(self)
                },
                Some(Resource::File(f)) => {
                    let k = if f.data@.len() - f.offset < len {
                        f.data@.len() - f.offset
                    } else {
                        len as int
                    };
                    &&& r == k
                    &&& final(buf)@ == f.data@.subrange(f.offset as int, f.offset + k)
                    &&& final(self).slots@ == old(self).slots@.update(
                        fd as int,
                        Some(
                            Resource::File(
                                FileContent { data: f.data, offset: (f.offset + k) as usize },
                            ),
                        ),
                    )
                    &&& final(input).contents() == old(input).contents()
                },
                _ => r == 0 && *final(self) == *old(self) && final(input).contents()
                    == old(input).contents(),
            },
    {
        buf.clear();
        let is_stdin = match &self.slots[fd as usize] {
            Some(Resource::Stdin) => true,
            _ => false,
        };
        if is_stdin {
            let ghost q0 = input.contents();
            let mut got: usize = 0;
            let mut drained = false;
            while got < len && !drained
                invariant
                    got <= len,
                    got <= q0.len(),
                    buf@ == q0.take(got as int),
                    input.contents() == q0.skip(got as int),
                    input.capacity() == old(input).capacity(),
                    drained ==> got == q0.len(),
                    len <= isize::MAX,
                decreases len - got + (if drained { 0int } else { 1int }),
            {
                match try_pop_key(input) {
                    Some(b) => {
                        proof {
                            assert(q0.skip(got as int)[0] == q0[got as int]);
                            assert(q0.take(got as int).push(q0[got as int]) =~= q0.take(got + 1));
                            assert(q0.skip(got as int).drop_first() =~= q0.skip(got + 1));
                        }
                        buf.push(b);
                        got = got + 1;
                    },
                    None => {
                        proof {
                            assert(q0.skip(got as int) =~= Seq::<u8>::empty());
                        }
                        drained = true;
                    },
                }
            }
            return got as isize;
        }
        let file_span: Option<(usize, usize)> = match &self.slots[fd as usize] {
            Some(Resource::File(f)) => {
                let remaining = f.data.len() - f.offset;
                let k = if remaining < len {
                    remaining
                } else {
                    len
                };
                Some((f.offset, k))
            },
            _ => None,
        };
        match file_span {
            None => 0,
            Some((start, k)) => {
                let ghost data0 = match old(self).slots@[fd as int] {
                    Some(Resource::File(f)) => f.data@,
                    _ => Seq::<u8>::empty(),
                };
                let mut i: usize = 0;
                while i < k
                    invariant
                        self.wf(),
                        *self == *old(self),
                        self.slots@[fd as int] matches Some(Resource::File(g)) && g.data@ == data0
                            && g.offset == start,
                        start + k <= data0.len(),
                        i <= k,
                        buf@ == data0.subrange(start as int, start + i),
                    decreases k - i,
                {
                    let b = match &self.slots[fd as usize] {
                        Some(Resource::File(g)) => {
                            let dlen = g.data.len();
                            proof {
                                assert(start + k <= dlen);
                            }
                            g.data[start + i]
                        },
                        _ => 0,
                    };
                    proof {
                        assert(data0.subrange(start as int, start + i).push(data0[start + i])
                            =~= data0.subrange(start as int, start + i + 1));
                    }
                    buf.push(b);
                    i = i + 1;
                }
                let new_offset = start + k;
                match &mut self.slots[fd as usize] {
                    Some(Resource::File(g)) => {
                        g.offset = new_offset;
                    },
                    _ => {},
                }
                k as isize
            },
        }
    }

    /// Write `buf` to `fd`. The console streams accept everything (the bytes
    /// themselves are the caller's to print); stdin and files reject the
    /// write. An unknown fd returns failure.
    pub fn write(&self, fd: u8, buf: &Vec<u8>) -> (r: isize)
        requires
            self.wf(),
            buf@.len() <= isize::MAX,
        ensures
            match self.spec_get(fd) {
                Some(Resource::Stdout) => r == buf@.len(),
                Some(Resource::Stderr) => r == buf@.len(),
                _ => r == -1,
            },
    {
        match &self.slots[fd as usize] {
            Some(Resource::Stdout) => buf.len() as isize,
            Some(Resource::Stderr) => buf.len() as isize,
            _ => -1,
        }
    }
}

} // verus!
