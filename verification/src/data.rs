//! Per-process bookkeeping outside the address space: environment variables,
//! the descriptor table, and the size of the mapped code segment.
//!
//! A fork clones this data: the child starts with the parent's environment
//! and descriptor table. The keyed semaphores, which forked processes must
//! share, live in the process manager instead.

use vstd::prelude::*;

use crate::input::InputBuffer;
use crate::resource::FileContent;
use crate::resource::Resource;
use crate::resource::ResourceSet;

verus! {

/// First value stored under `key`, scanning from the front.
pub open spec fn env_lookup(s: Seq<(String, String)>, key: Seq<char>) -> Option<Seq<char>>
    decreases s.len(),
{
    if s.len() == 0 {
        None
    } else if s[0].0@ == key {
        Some(s[0].1@)
    } else {
        env_lookup(s.drop_first(), key)
    }
}

/// Everything a process carries besides its address space.
pub struct ProcessData {
    /// Environment variables; a later `set_env` shadows an earlier one.
    pub env: Vec<(String, String)>,
    /// The descriptor table.
    pub resources: ResourceSet,
    /// Pages mapped for the code segment, recorded when the image is loaded.
    pub code_segment_pages: u64,
}

impl ProcessData {
    pub open spec fn wf(self) -> bool {
        self.resources.wf()
    }

    /// Fresh data: empty environment, the standard descriptors, no code.
    pub fn new() -> (d: ProcessData)
        ensures
            d.wf(),
            d.env@.len() == 0,
            d.code_segment_pages == 0,
            d.resources.spec_get(0) == Some(Resource::Stdin),
            d.resources.spec_get(1) == Some(Resource::Stdout),
            d.resources.spec_get(2) == Some(Resource::Stderr),
            forall|fd: u8| 3 <= fd ==> #[trigger] d.resources.spec_get(fd) is None,
    {
        ProcessData { env: Vec::new(), resources: ResourceSet::new(), code_segment_pages: 0 }
    }

    /// Value of the environment variable `key`.
    pub fn env(&self, key: &str) -> (r: Option<String>)
        ensures
            match r {
                Some(v) => env_lookup(self.env@, key@) == Some(v@),
                None => env_lookup(self.env@, key@) is None,
            },
    {
        let k: String = key.to_owned();
        let mut i: usize = 0;
        while i < self.env.len()
            invariant
                k@ == key@,
                0 <= i <= self.env@.len(),
                forall|j: int| 0 <= j < i ==> (#[trigger] self.env@[j].0)@ != key@,
            decreases self.env@.len() - i,
        {
            if self.env[i].0 == k {
                proof {
                    lemma_env_lookup_at(self.env@, key@, i as int);
                }
                let v: String = self.env[i].1.clone();
                return Some(v);
            }
            i = i + 1;
        }
        proof {
            lemma_env_lookup_absent(self.env@, key@);
        }
        None
    }

    /// Bind `key` to `val`, shadowing any earlier binding.
    pub fn set_env(&mut self, key: &str, val: &str)
        requires
            old(self).wf(),
        ensures
            final(self).wf(),
            env_lookup(final(self).env@, key@) == Some(val@),
            forall|k2: Seq<char>|
                k2 != key@ ==> #[trigger] env_lookup(final(self).env@, k2) == env_lookup(
                    old(self).env@,
                    k2,
                ),
            final(self).resources == old(self).resources,
            final(self).code_segment_pages == old(self).code_segment_pages,
    {
        let pair = (key.to_owned(), val.to_owned());
        self.env.insert(0, pair);
        proof {
            assert(self.env@.drop_first() =~= old(self).env@);
        }
    }

    /// Read from descriptor `fd`; see the descriptor table for the contract
    /// shape. Returns the bytes read through `buf`.
    pub fn read(
        &mut self,
        fd: u8,
        len: usize,
        buf: &mut Vec<u8>,
        input: &mut InputBuffer,
    ) -> (r: isize)
        requires
            old(self).wf(),
            len <= isize::MAX as usize,
        ensures
            final(self).wf(),
            0 <= r <= len,
            final(buf)@.len() == r,
            final(self).env == old(self).env,
            final(self).code_segment_pages == old(self).code_segment_pages,
            final(input).capacity() == old(input).capacity(),
            match old(self).resources.spec_get(fd) {
                Some(Resource::Stdin) => {
                    let k = if old(input).contents().len() < len {
                        old(input).contents().len() as int
                    } else {
                        len as int
                    };
                    &&& r == k
                    &&& final(buf)@ == old(input).contents().take(k)
                    &&& final(input).contents() == old(input).contents().skip(k)
                    &&& *final(self) == *old(self)
                },
                Some(Resource::File(f)) => {
                    let k = if f.data@.len() - f.offset < len {
                        f.data@.len() - f.offset
                    } else {
                        len as int
                    };
                    &&& r == k
                    &&& final(buf)@ == f.data@.subrange(f.offset as int, f.offset + k)
                    &&& final(self).resources.slots@ == old(self).resources.slots@.update(
                        fd as int,
                        Some(
                            Resource::File(
                                FileContent { data: f.data, offset: (f.offset + k) as usize },
                            ),
                        ),
                    )
                    &&& final(input).contents() == old(input).contents()
                },
                _ => r == 0 && *final(self) == *old(self) && final(input).contents() == old(
                    input,
                ).contents(),
            },
    {
        self.resources.read(fd, len, buf, input)
    }

    /// Write `buf` to descriptor `fd`: the console streams accept everything,
    /// anything else rejects the write.
    pub fn write(&self, fd: u8, buf: &Vec<u8>) -> (r: isize)
        requires
            self.wf(),
            buf@.len() <= isize::MAX,
        ensures
            match self.resources.spec_get(fd) {
                Some(Resource::Stdout) => r == buf@.len(),
                Some(Resource::Stderr) => r == buf@.len(),
                _ => r == -1,
            },
    {
        self.resources.write(fd, buf)
    }

    /// Open a file's contents under the smallest free descriptor; 0 reports a
    /// full table.
    pub fn open_file(&mut self, file: FileContent) -> (fd: u8)
        requires
            old(self).wf(),
            file.wf(),
        ensures
            final(self).wf(),
            final(self).env == old(self).env,
            final(self).code_segment_pages == old(self).code_segment_pages,
            fd != 0 ==> 3 <= fd && old(self).resources.spec_get(fd) is None && final(self)
                .resources.slots@ == old(self).resources.slots@.update(
                fd as int,
                Some(Resource::File(file)),
            ) && (forall|fd2: u8|
                3 <= fd2 < fd ==> #[trigger] old(self).resources.spec_get(fd2) is Some),
            fd == 0 ==> *final(self) == *old(self) && (forall|fd2: u8|
                3 <= fd2 ==> #[trigger] old(self).resources.spec_get(fd2) is Some),
    {
        match self.resources.open(Resource::File(file)) {
            Some(fd) => fd,
            None => 0,
        }
    }

    /// Close descriptor `fd`; false when nothing was open there.
    pub fn close_file(&mut self, fd: u8) -> (r: bool)
        requires
            old(self).wf(),
        ensures
            final(self).wf(),
            r == (old(self).resources.spec_get(fd) is Some),
            final(self).resources.slots@ == old(self).resources.slots@.update(
                fd as int,
                None::<Resource>,
            ),
            final(self).env == old(self).env,
            final(self).code_segment_pages == old(self).code_segment_pages,
    {
        self.resources.close(fd)
    }
}

/// The slots hold the same kind of resource; an open file has the same bytes
/// and cursor (each copy owning its own buffer).
pub open spec fn same_resource(a: Option<Resource>, b: Option<Resource>) -> bool {
    match b {
        None => a is None,
        Some(Resource::Stdin) => a == Some(Resource::Stdin),
        Some(Resource::Stdout) => a == Some(Resource::Stdout),
        Some(Resource::Stderr) => a == Some(Resource::Stderr),
        Some(Resource::File(f)) => a matches Some(Resource::File(g)) && g.data@ == f.data@
            && g.offset == f.offset,
    }
}

/// A byte-for-byte copy.
fn clone_bytes(v: &Vec<u8>) -> (r: Vec<u8>)
    ensures
        r@ == v@,
{
    let mut r: Vec<u8> = Vec::new();
    let mut i: usize = 0;
    while i < v.len()
        invariant
            i <= v@.len(),
            r@ == v@.take(i as int),
        decreases v@.len() - i,
    {
        r.push(v[i]);
        proof {
            assert(v@.take(i as int).push(v@[i as int]) =~= v@.take(i + 1));
        }
        i = i + 1;
    }
    proof {
        assert(v@.take(v@.len() as int) =~= v@);
    }
    r
}

impl ProcessData {
    /// The copy a forked child starts with: the same environment and code
    /// size; the descriptor table keeps every descriptor with its kind, and
    /// an open file keeps its bytes and cursor.
    pub fn duplicate(&self) -> (d: ProcessData)
        requires
            self.wf(),
        ensures
            d.wf(),
            d.env@ == self.env@,
            d.code_segment_pages == self.code_segment_pages,
            d.resources.slots@.len() == self.resources.slots@.len(),
            forall|fd: int|
                0 <= fd < self.resources.slots@.len() ==> same_resource(
                    #[trigger] d.resources.slots@[fd],
                    self.resources.slots@[fd],
                ),
    {
        let mut env2: Vec<(String, String)> = Vec::new();
        let mut i: usize = 0;
        while i < self.env.len()
            invariant
                i <= self.env@.len(),
                env2@ == self.env@.take(i as int),
            decreases self.env@.len() - i,
        {
            let pair = (self.env[i].0.clone(), self.env[i].1.clone());
            proof {
                assert(pair == self.env@[i as int]);
                assert(self.env@.take(i as int).push(self.env@[i as int]) =~= self.env@.take(
                    i + 1,
                ));
            }
            env2.push(pair);
            i = i + 1;
        }
        proof {
            assert(self.env@.take(self.env@.len() as int) =~= self.env@);
        }
        let mut slots2: Vec<Option<Resource>> = Vec::new();
        let mut j: usize = 0;
        while j < self.resources.slots.len()
            invariant
                self.wf(),
                j <= self.resources.slots@.len(),
                slots2@.len() == j,
                forall|fd: int|
                    0 <= fd < j ==> same_resource(
                        #[trigger] slots2@[fd],
                        self.resources.slots@[fd],
                    ),
                forall|fd: int|
                    0 <= fd < j ==> match #[trigger] slots2@[fd] {
                        Some(r) => r.wf(),
                        None => true,
                    },
            decreases self.resources.slots@.len() - j,
        {
            let entry: Option<Resource> = match &self.resources.slots[j] {
                None => None,
                Some(Resource::Stdin) => Some(Resource::Stdin),
                Some(Resource::Stdout) => Some(Resource::Stdout),
                Some(Resource::Stderr) => Some(Resource::Stderr),
                Some(Resource::File(f)) => Some(
                    Resource::File(FileContent { data: clone_bytes(&f.data), offset: f.offset }),
                ),
            };
            slots2.push(entry);
            j = j + 1;
        }
        ProcessData {
            env: env2,
            resources: ResourceSet { slots: slots2 },
            code_segment_pages: self.code_segment_pages,
        }
    }
}

proof fn lemma_env_lookup_at(s: Seq<(String, String)>, key: Seq<char>, i: int)
    requires
        0 <= i < s.len(),
        s[i].0@ == key,
        forall|j: int| 0 <= j < i ==> (#[trigger] s[j].0)@ != key,
    ensures
        env_lookup(s, key) == Some(s[i].1@),
    decreases i,
{
    if i == 0 {
    } else {
        assert(s.drop_first()[i - 1] == s[i]);
        assert forall|j: int| 0 <= j < i - 1 implies (#[trigger] s.drop_first()[j].0)@ != key by {
            assert(s.drop_first()[j] == s[j + 1]);
        }
        lemma_env_lookup_at(s.drop_first(), key, i - 1);
    }
}

proof fn lemma_env_lookup_absent(s: Seq<(String, String)>, key: Seq<char>)
    requires
        forall|j: int| 0 <= j < s.len() ==> (#[trigger] s[j].0)@ != key,
    ensures
        env_lookup(s, key) is None,
    decreases s.len(),
{
    if s.len() > 0 {
        assert forall|j: int| 0 <= j < s.len() - 1 implies (#[trigger] s.drop_first()[j].0)@
            != key by {
            assert(s.drop_first()[j] == s[j + 1]);
        }
        lemma_env_lookup_absent(s.drop_first(), key);
    }
}

} // verus!
