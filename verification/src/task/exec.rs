//! Replacing the program of a process.
use crate::config::{MMAP_BASE, USER_STACK_SIZE};
use crate::codec::{word_bytes, word_of};
use crate::mm::elf::elf_entry;
use crate::mm::loader::{heap_base_of, image_top, load_space, stack_top_of};
use crate::mm::memory_set::{MemorySet, SpaceView};
use crate::mm::user_stack::{build_stack_image, image_bytes, image_len, image_sp, lemma_image_argv, strings_base, strings_len, views};
use crate::task::pid::{kernel_stack_position, kernel_stack_top_of};
use crate::task::task::{TaskControlBlock, TaskStatus, TaskView};
use crate::trap::context::{TrapContext, TrapView};
use vstd::prelude::*;

verus! {

/// Whether a program can be started from the image `data` with the
/// arguments `args` and the environment `envs`: the image can be loaded and
/// the initial stack fits in a stack.
pub open spec fn exec_ok(data: Seq<u8>, args: Seq<Seq<u8>>, envs: Seq<Seq<u8>>) -> bool {
    load_space(data) is Some && image_len(args, envs) <= USER_STACK_SIZE
}

/// The stack pointer of the program of image `data` when it starts with the
/// arguments `args` and the environment `envs`.
pub open spec fn exec_sp(data: Seq<u8>, args: Seq<Seq<u8>>, envs: Seq<Seq<u8>>) -> usize {
    image_sp(args, envs, stack_top_of(image_top(data)) as usize) as usize
}

impl TaskView {
    /// The process after it has replaced its program by that of image
    /// `data`: its address space is the one of the image, with the initial
    /// stack in place; it starts at the entry point with the stack pointer
    /// at the initial stack, the number of arguments in `a0`, the address of
    /// the argument pointers in `a1` and that of the environment pointers in
    /// `a2`; its heap is empty and its `mmap` cursor is at its start.  Its
    /// identity, its relatives, its open files and its signals stay.
    pub open spec fn execed(
        self,
        data: Seq<u8>,
        args: Seq<Seq<u8>>,
        envs: Seq<Seq<u8>>,
        kernel_satp: usize,
        trap_handler: usize,
    ) -> TaskView {
        let s0 = load_space(data).unwrap();
        let sp = exec_sp(data, args, envs);
        TaskView {
            space: SpaceView {
                regions: s0.regions,
                pages: s0.written(sp, image_bytes(args, envs, sp as int)),
            },
            trap_cx: TrapView {
                x: Seq::new(32, |i: int| 0usize).update(2, sp).update(10, args.len() as usize).update(
                    11,
                    (sp + 8) as usize,
                ).update(12, (sp + 8 + 8 * (args.len() + 1)) as usize),
                sstatus: 0,
                sepc: elf_entry(data),
                kernel_satp,
                kernel_sp: kernel_stack_top_of(self.pid) as usize,
                trap_handler,
            },
            heap_base: heap_base_of(image_top(data)) as usize,
            heap_end: heap_base_of(image_top(data)) as usize,
            mmap_top: MMAP_BASE,
            sleep_until: None,
            ..self
        }
    }
}

impl SpaceView {
    /// What has been stored can be read back.
    pub proof fn lemma_read_back(self, va: usize, data: Seq<u8>, off: int, len: int)
        requires
            self.wf(),
            va + data.len() <= usize::MAX,
            forall|i: int| 0 <= i < data.len() ==> self.present(#[trigger] (((va + i) / 4096) as usize)),
            0 <= off,
            0 <= len,
            off + len <= data.len(),
        ensures
            (SpaceView { regions: self.regions, pages: self.written(va, data) }).bytes(
                (va + off) as usize,
                len,
            ) == data.subrange(off, off + len),
    {
        let after = SpaceView { regions: self.regions, pages: self.written(va, data) };
        let got = after.bytes((va + off) as usize, len);
        assert forall|i: int| 0 <= i < len implies got[i] == data[off + i] by {
            let a = (va + off + i) as usize;
            assert(self.present((((va + (off + i)) / 4096) as usize)));
            self.lemma_written_bytes(va, data, a);
        }
        assert(got =~= data.subrange(off, off + len));
    }

    /// Whether the initial stack of a program with the arguments `args` and
    /// the environment `envs` stands at `sp` and can be read there.
    pub open spec fn holds_image(self, sp: usize, args: Seq<Seq<u8>>, envs: Seq<Seq<u8>>) -> bool {
        &&& sp + image_len(args, envs) <= usize::MAX
        &&& self.range_ok(sp, image_len(args, envs), false)
        &&& self.bytes(sp, image_len(args, envs)) == image_bytes(args, envs, sp as int)
    }

    /// A program that starts with `n` arguments finds on its stack what it
    /// was started with: the word at the stack pointer is `n`; the `n` words
    /// after it are the addresses of the arguments, in order, each a string
    /// that ends with a zero byte; and the word after those is null.
    pub proof fn lemma_exec_argv(self, sp: usize, args: Seq<Seq<u8>>, envs: Seq<Seq<u8>>, i: int)
        requires
            self.wf(),
            self.holds_image(sp, args, envs),
            0 <= i < args.len(),
            forall|j: int| 0 <= j < args[i].len() ==> args[i][j] != 0,
        ensures
            self.word_at(sp) == Some(args.len() as usize),
            self.word_at((sp + 8 + 8 * args.len()) as usize) == Some(0usize),
            self.word_at((sp + 8 + 8 * i) as usize) is Some,
            self.cstr(self.word_at((sp + 8 + 8 * i) as usize).unwrap()) == Some(args[i]),
    {
        let total = image_len(args, envs);
        let img = image_bytes(args, envs, sp as int);
        let n = args.len() as int;
        lemma_image_argv(args, envs, sp as int, i);
        vstd::bytes::lemma_auto_spec_u64_to_from_le_bytes();
        let at = (strings_base(args, envs, sp as int) + strings_len(args, i)) as usize;
        let whole = self.bytes(sp, total);
        // Every byte of the image can be read.
        assert forall|o: int| 0 <= o < total implies self.accessible((sp + o) as usize, false)
            && self.byte((sp + o) as usize) == img[o] by {
            assert(self.accessible((sp + o) as usize, false));
            assert(whole[o] == self.byte((sp + o) as usize));
        }
        // A part of the image, read from memory.
        assert forall|off: int, len: int| 0 <= off && 0 <= len && off + len <= total implies (
        #[trigger] self.bytes((sp + off) as usize, len)) == img.subrange(off, off + len)
            && self.range_ok((sp + off) as usize, len, false) by {
            let part = self.bytes((sp + off) as usize, len);
            assert forall|j: int| 0 <= j < len implies part[j] == img[off + j]
                && #[trigger] self.accessible((sp + off + j) as usize, false) by {
                assert(self.accessible((sp + (off + j)) as usize, false));
                assert(self.byte((sp + (off + j)) as usize) == img[off + j]);
            }
            assert(part =~= img.subrange(off, off + len));
            assert forall|j: int| 0 <= j < len implies #[trigger] self.accessible(
                (((sp + off) as usize) + j) as usize,
                false,
            ) by {
                assert(self.accessible((sp + off + j) as usize, false));
            }
        }
        assert(self.bytes((sp + 0) as usize, 8) == img.subrange(0, 8));
        assert(self.bytes((sp + (8 + 8 * n)) as usize, 8) == img.subrange(8 + 8 * n, 16 + 8 * n));
        assert(self.bytes((sp + (8 + 8 * i)) as usize, 8) == img.subrange(8 + 8 * i, 16 + 8 * i));
        assert(self.word_at((sp + 8 + 8 * i) as usize) == Some(at));
        // The string behind the pointer.
        let len = args[i].len() as int;
        let off = at - sp;
        assert(self.bytes((sp + off) as usize, len + 1) == args[i].push(0u8));
        assert(self.is_cstr(at, len)) by {
            assert forall|j: int| 0 <= j < len implies #[trigger] self.nonzero_at((at + j) as usize) by {
                assert(self.accessible((sp + (off + j)) as usize, false));
                assert(self.byte((sp + (off + j)) as usize) == img[off + j]);
                assert(img.subrange(off, off + len + 1)[j] == args[i].push(0u8)[j]);
            }
            assert(self.accessible((sp + (off + len)) as usize, false));
            assert(self.byte((sp + (off + len)) as usize) == img[off + len]);
            assert(img.subrange(off, off + len + 1)[len] == args[i].push(0u8)[len]);
        }
        let m = choose|m: int| self.is_cstr(at, m);
        self.lemma_cstr_unique(at, m, len);
        assert(self.bytes(at, len) =~= args[i]) by {
            assert forall|j: int| 0 <= j < len implies self.bytes(at, len)[j] == args[i][j] by {
                assert(self.byte((sp + (off + j)) as usize) == img[off + j]);
                assert(img.subrange(off, off + len + 1)[j] == args[i].push(0u8)[j]);
            }
        }
    }
}

/// A program loaded and ready to start: its address space with the initial
/// stack in place, its registers, and the base of its heap.
pub struct Program {
    pub memory_set: MemorySet,
    pub trap_cx: TrapContext,
    pub heap_base: usize,
}

/// Loads the image `elf_data` for process `pid` and puts the initial stack
/// for the arguments `args` and the environment `envs` in place.  Gives
/// nothing where the image cannot be loaded or the initial stack does not
/// fit in a stack.
pub fn load_program(
    elf_data: &[u8],
    args: &Vec<Vec<u8>>,
    envs: &Vec<Vec<u8>>,
    pid: usize,
    kernel_satp: usize,
    trap_handler: usize,
) -> (r: Option<Program>)
    requires
        pid < crate::config::MAX_PID,
    ensures
        r is Some <==> exec_ok(elf_data@, views(args@), views(envs@)),
        r matches Some(p) ==> ({
            let t = blank_task(pid).execed(
                elf_data@,
                views(args@),
                views(envs@),
                kernel_satp,
                trap_handler,
            );
            &&& p.memory_set@ == t.space
            &&& p.trap_cx@ == t.trap_cx
            &&& p.heap_base == t.heap_base
            &&& t.wf()
            &&& t.space.holds_image(
                exec_sp(elf_data@, views(args@), views(envs@)),
                views(args@),
                views(envs@),
            )
        }),
{
    let mut img = match MemorySet::from_elf(elf_data) {
        Some(img) => img,
        None => {
            return None;
        },
    };
    let stack = match build_stack_image(args, envs, img.user_sp) {
        Some(s) => s,
        None => {
            return None;
        },
    };
    let ghost loaded = img.memory_set@;
    let ghost bottom = (img.user_sp - USER_STACK_SIZE) as usize;
    let ghost a = views(args@);
    let ghost e = views(envs@);
    proof {
        assert forall|i: int| 0 <= i < stack.bytes@.len() implies #[trigger] loaded.accessible(
            (stack.sp + i) as usize,
            true,
        ) by {
            assert(loaded.accessible((bottom + (stack.sp + i - bottom)) as usize, true));
        }
    }
    let ok = img.memory_set.copy_out(stack.sp, stack.bytes.as_slice());
    assert(ok);
    proof {
        let after = img.memory_set@;
        let total = image_len(a, e);
        lemma_image_argv_len(a, e, stack.sp as int);
        assert forall|i: int| 0 <= i < total implies loaded.present(
            #[trigger] (((stack.sp + i) / 4096) as usize),
        ) by {
            assert(loaded.accessible((stack.sp + i) as usize, true));
        }
        loaded.lemma_read_back(stack.sp, stack.bytes@, 0, total);
        assert(stack.bytes@.subrange(0, total) =~= stack.bytes@);
        assert forall|i: int| 0 <= i < total implies #[trigger] after.accessible(
            (stack.sp + i) as usize,
            false,
        ) by {
            let v = ((stack.sp + i) / 4096) as usize;
            assert(loaded.accessible((bottom + (stack.sp + i - bottom)) as usize, false));
            loaded.lemma_covers_same_regions(after, v);
        }
        loaded.lemma_wf_same_regions(after);
    }
    let mut cx = TrapContext::app_init_context(
        img.entry,
        stack.sp,
        kernel_satp,
        kernel_stack_position(pid).1,
        trap_handler,
    );
    cx.set_reg(10, args.len());
    cx.set_reg(11, stack.argv);
    cx.set_reg(12, stack.envp);
    proof {
        let t = blank_task(pid).execed(elf_data@, a, e, kernel_satp, trap_handler);
        assert(cx@.x =~= t.trap_cx.x);
        assert(0u32 & !0x000A_8BD6u32 == 0) by (bit_vector);
        assert(t.space.regions[2] == crate::task::task::heap_area(t.heap_base, t.heap_end));
    }
    Some(Program { memory_set: img.memory_set, trap_cx: cx, heap_base: img.heap_base })
}

/// A process with identifier `pid` that has nothing yet: no program, no
/// relatives, no open files.
pub open spec fn blank_task(pid: usize) -> TaskView {
    TaskView {
        pid,
        tgid: 0,
        space: crate::task::schedule::husk(),
        trap_cx: TrapView {
            x: Seq::new(32, |i: int| 0usize),
            sstatus: 0,
            sepc: 0,
            kernel_satp: 0,
            kernel_sp: 0,
            trap_handler: 0,
        },
        status: TaskStatus::Ready,
        parent: None,
        children: Seq::<usize>::empty(),
        exit_code: 0,
        fd_table: Seq::<Option<crate::task::task::FileDescriptor>>::empty(),
        current_path: Seq::<u8>::empty(),
        signals: crate::signal::SignalFlags { bits: 0 },
        resource: Seq::new(16, |i: int| crate::info::RLimit { rlim_cur: usize::MAX, rlim_max: usize::MAX }),
        heap_base: 0,
        heap_end: 0,
        mmap_top: 0,
        sleep_until: None,
    }
}

impl TaskControlBlock {
    /// Replaces the program of the process by that of the image `elf_data`,
    /// started with the arguments `args` and the environment `envs`.  Says
    /// `false`, and changes nothing, where the image cannot be loaded or the
    /// initial stack does not fit in a stack.
    pub fn exec(
        &mut self,
        elf_data: &[u8],
        args: &Vec<Vec<u8>>,
        envs: &Vec<Vec<u8>>,
        kernel_satp: usize,
        trap_handler: usize,
    ) -> (ok: bool)
        requires
            old(self).wf(),
        ensures
            final(self).wf(),
            ok <==> exec_ok(elf_data@, views(args@), views(envs@)),
            ok ==> final(self)@ == old(self)@.execed(
                elf_data@,
                views(args@),
                views(envs@),
                kernel_satp,
                trap_handler,
            ),
            ok ==> final(self)@.space.holds_image(
                exec_sp(elf_data@, views(args@), views(envs@)),
                views(args@),
                views(envs@),
            ),
            !ok ==> final(self)@ == old(self)@,
    {
        match load_program(elf_data, args, envs, self.pid, kernel_satp, trap_handler) {
            None => false,
            Some(p) => {
                self.memory_set = p.memory_set;
                self.trap_cx = p.trap_cx;
                self.heap_base = p.heap_base;
                self.heap_end = p.heap_base;
                self.mmap_top = MMAP_BASE;
                self.sleep_until = None;
                true
            },
        }
    }

    /// The initial process, made from the image `elf_data`: it has
    /// identifier 0, no parent, the three standard files open, and the root
    /// directory as its working directory, and it is ready to run.
    pub fn new_initproc(elf_data: &[u8], kernel_satp: usize, trap_handler: usize) -> (r: Option<
        Self,
    >)
        ensures
            r is Some <==> exec_ok(elf_data@, Seq::<Seq<u8>>::empty(), Seq::<Seq<u8>>::empty()),
            r matches Some(t) ==> t@ == initproc_view(elf_data@, kernel_satp, trap_handler) && t.wf(),
    {
        let args: Vec<Vec<u8>> = Vec::new();
        let envs: Vec<Vec<u8>> = Vec::new();
        assert(views(args@) =~= Seq::<Seq<u8>>::empty());
        assert(views(envs@) =~= Seq::<Seq<u8>>::empty());
        let p = match load_program(elf_data, &args, &envs, 0, kernel_satp, trap_handler) {
            Some(p) => p,
            None => {
                return None;
            },
        };
        let mut fd_table: Vec<Option<crate::task::task::FileDescriptor>> = Vec::new();
        fd_table.push(
            Some(
                crate::task::task::FileDescriptor {
                    kind: crate::task::task::FileKind::Stdin,
                    readable: true,
                    writable: false,
                },
            ),
        );
        fd_table.push(
            Some(
                crate::task::task::FileDescriptor {
                    kind: crate::task::task::FileKind::Stdout,
                    readable: false,
                    writable: true,
                },
            ),
        );
        fd_table.push(
            Some(
                crate::task::task::FileDescriptor {
                    kind: crate::task::task::FileKind::Stderr,
                    readable: false,
                    writable: true,
                },
            ),
        );
        let mut current_path: Vec<u8> = Vec::new();
        current_path.push(0x2f);
        let t = TaskControlBlock {
            pid: 0,
            tgid: 0,
            memory_set: p.memory_set,
            trap_cx: p.trap_cx,
            status: TaskStatus::Ready,
            parent: None,
            children: Vec::new(),
            exit_code: 0,
            fd_table,
            current_path,
            signals: crate::signal::SignalFlags::empty(),
            resource: [crate::info::RLimit { rlim_cur: usize::MAX, rlim_max: usize::MAX };16],
            heap_base: p.heap_base,
            heap_end: p.heap_base,
            mmap_top: MMAP_BASE,
            sleep_until: None,
        };
        proof {
            let want = initproc_view(elf_data@, kernel_satp, trap_handler);
            assert(t@.fd_table =~= want.fd_table);
            assert(t@.current_path =~= want.current_path);
            assert(t@.resource =~= want.resource);
            assert(t@.children =~= want.children);
        }
        Some(t)
    }
}

/// The three standard files.
pub open spec fn standard_files() -> Seq<Option<crate::task::task::FileDescriptor>> {
    seq![
        Some(
            crate::task::task::FileDescriptor {
                kind: crate::task::task::FileKind::Stdin,
                readable: true,
                writable: false,
            },
        ),
        Some(
            crate::task::task::FileDescriptor {
                kind: crate::task::task::FileKind::Stdout,
                readable: false,
                writable: true,
            },
        ),
        Some(
            crate::task::task::FileDescriptor {
                kind: crate::task::task::FileKind::Stderr,
                readable: false,
                writable: true,
            },
        ),
    ]
}

/// The initial process of image `data`.
pub open spec fn initproc_view(data: Seq<u8>, kernel_satp: usize, trap_handler: usize) -> TaskView {
    (TaskView {
        fd_table: standard_files(),
        current_path: seq![0x2fu8],
        ..blank_task(0)
    }).execed(data, Seq::<Seq<u8>>::empty(), Seq::<Seq<u8>>::empty(), kernel_satp, trap_handler)
}

/// The initial stack is as long as its parts.
pub proof fn lemma_image_argv_len(args: Seq<Seq<u8>>, envs: Seq<Seq<u8>>, sp: int)
    ensures
        image_bytes(args, envs, sp).len() == image_len(args, envs),
{
    crate::mm::user_stack::lemma_strings_len(args, args.len() as int);
    crate::mm::user_stack::lemma_strings_len(envs, envs.len() as int);
    vstd::bytes::lemma_auto_spec_u64_to_from_le_bytes();
}

} // verus!
