//! The initial stack of a program: the argument count, the argument and
//! environment pointers, and the strings they point to.
use crate::codec::{put_word, word_bytes, word_of};
use crate::config::USER_STACK_SIZE;
use crate::mm::memory_set::SpaceView;
use vstd::prelude::*;

verus! {

/// The strings of `v`, as sequences of bytes.
pub open spec fn views(v: Seq<Vec<u8>>) -> Seq<Seq<u8>> {
    Seq::new(v.len(), |i: int| v[i]@)
}

/// The bytes the first `n` strings take, each with its closing zero.
pub open spec fn strings_len(strs: Seq<Seq<u8>>, n: int) -> int
    decreases n,
{
    if n <= 0 {
        0
    } else {
        strings_len(strs, n - 1) + strs[n - 1].len() + 1
    }
}

/// The first `n` strings, each with its closing zero, one after the other.
pub open spec fn strings_bytes(strs: Seq<Seq<u8>>, n: int) -> Seq<u8>
    decreases n,
{
    if n <= 0 {
        Seq::<u8>::empty()
    } else {
        strings_bytes(strs, n - 1) + strs[n - 1].push(0u8)
    }
}

/// The addresses of the first `n` strings, as machine words one after the
/// other, when the first string stands at `base`.
pub open spec fn pointer_bytes(strs: Seq<Seq<u8>>, base: int, n: int) -> Seq<u8>
    decreases n,
{
    if n <= 0 {
        Seq::<u8>::empty()
    } else {
        pointer_bytes(strs, base, n - 1) + word_bytes((base + strings_len(strs, n - 1)) as usize)
    }
}

/// The bytes the initial stack takes.
pub open spec fn image_len(args: Seq<Seq<u8>>, envs: Seq<Seq<u8>>) -> int {
    8 + 8 * (args.len() + 1) + 8 * (envs.len() + 1) + strings_len(args, args.len() as int)
        + strings_len(envs, envs.len() as int)
}

/// The stack pointer of a program that starts with these arguments on a
/// stack that ends at `top`: the initial stack ends at or below `top` and
/// starts at a multiple of sixteen.
pub open spec fn image_sp(args: Seq<Seq<u8>>, envs: Seq<Seq<u8>>, top: usize) -> int {
    (top - image_len(args, envs)) - (top - image_len(args, envs)) % 16
}

/// Where the first string stands when the initial stack starts at `sp`.
pub open spec fn strings_base(args: Seq<Seq<u8>>, envs: Seq<Seq<u8>>, sp: int) -> int {
    sp + 8 + 8 * (args.len() + 1) + 8 * (envs.len() + 1)
}

/// The initial stack that starts at `sp`, from low addresses to high: the
/// number of arguments; the address of each argument, and a null word; the
/// address of each environment string, and a null word; the arguments, each
/// closed by a zero byte; the environment strings, each closed by a zero
/// byte.
pub open spec fn image_bytes(args: Seq<Seq<u8>>, envs: Seq<Seq<u8>>, sp: int) -> Seq<u8> {
    let base = strings_base(args, envs, sp);
    word_bytes(args.len() as usize) + pointer_bytes(args, base, args.len() as int) + word_bytes(0)
        + pointer_bytes(envs, base + strings_len(args, args.len() as int), envs.len() as int)
        + word_bytes(0) + strings_bytes(args, args.len() as int) + strings_bytes(
        envs,
        envs.len() as int,
    )
}

/// The initial stack of a program, ready to be stored at `sp`.
pub struct StackImage {
    pub sp: usize,
    pub argv: usize,
    pub envp: usize,
    pub bytes: Vec<u8>,
}

/// Strings take at least a byte each.
pub proof fn lemma_strings_len(strs: Seq<Seq<u8>>, n: int)
    requires
        0 <= n <= strs.len(),
    ensures
        strings_len(strs, n) >= n,
        strings_bytes(strs, n).len() == strings_len(strs, n),
        forall|base: int| #[trigger] pointer_bytes(strs, base, n).len() == 8 * n,
    decreases n,
{
    if n > 0 {
        lemma_strings_len(strs, n - 1);
        vstd::bytes::lemma_auto_spec_u64_to_from_le_bytes();
        assert forall|base: int| #[trigger] pointer_bytes(strs, base, n).len() == 8 * n by {
            assert(pointer_bytes(strs, base, n - 1).len() == 8 * (n - 1));
        }
    }
}

/// Strings that come later stand higher.
pub proof fn lemma_strings_len_mono(strs: Seq<Seq<u8>>, i: int, n: int)
    requires
        0 <= i <= n <= strs.len(),
    ensures
        strings_len(strs, i) <= strings_len(strs, n),
        i < n ==> strings_len(strs, i) + strs[i].len() + 1 <= strings_len(strs, n),
    decreases n - i,
{
    if i < n {
        lemma_strings_len_mono(strs, i, n - 1);
        lemma_strings_len(strs, n - 1);
    }
}

/// String `i` stands in the strings where the strings before it end.
pub proof fn lemma_string_at(strs: Seq<Seq<u8>>, n: int, i: int)
    requires
        0 <= i < n <= strs.len(),
    ensures
        strings_len(strs, i) + strs[i].len() + 1 <= strings_bytes(strs, n).len(),
        strings_bytes(strs, n).subrange(
            strings_len(strs, i),
            strings_len(strs, i) + strs[i].len() + 1,
        ) == strs[i].push(0u8),
    decreases n,
{
    lemma_strings_len(strs, n);
    lemma_strings_len(strs, n - 1);
    lemma_strings_len(strs, i);
    lemma_strings_len_mono(strs, i, n);
    assert(strings_bytes(strs, n) == strings_bytes(strs, n - 1) + strs[n - 1].push(0u8));
    assert(strings_len(strs, n) == strings_len(strs, n - 1) + strs[n - 1].len() + 1);
    if i < n - 1 {
        lemma_string_at(strs, n - 1, i);
        lemma_strings_len_mono(strs, i, n - 1);
        assert(strings_bytes(strs, n).subrange(
            strings_len(strs, i),
            strings_len(strs, i) + strs[i].len() + 1,
        ) =~= strings_bytes(strs, n - 1).subrange(
            strings_len(strs, i),
            strings_len(strs, i) + strs[i].len() + 1,
        ));
    } else {
        assert(strings_bytes(strs, n).subrange(
            strings_len(strs, i),
            strings_len(strs, i) + strs[i].len() + 1,
        ) =~= strs[i].push(0u8));
    }
}

/// Pointer `i` holds the address of string `i`.
pub proof fn lemma_pointer_at(strs: Seq<Seq<u8>>, base: int, n: int, i: int)
    requires
        0 <= i < n <= strs.len(),
    ensures
        8 * i + 8 <= pointer_bytes(strs, base, n).len(),
        pointer_bytes(strs, base, n).subrange(8 * i, 8 * i + 8) == word_bytes(
            (base + strings_len(strs, i)) as usize,
        ),
    decreases n,
{
    lemma_strings_len(strs, n);
    lemma_strings_len(strs, n - 1);
    vstd::bytes::lemma_auto_spec_u64_to_from_le_bytes();
    assert(pointer_bytes(strs, base, n) == pointer_bytes(strs, base, n - 1) + word_bytes(
        (base + strings_len(strs, n - 1)) as usize,
    ));
    assert(pointer_bytes(strs, base, n - 1).len() == 8 * (n - 1));
    if i < n - 1 {
        lemma_pointer_at(strs, base, n - 1, i);
        assert(pointer_bytes(strs, base, n).subrange(8 * i, 8 * i + 8) =~= pointer_bytes(
            strs,
            base,
            n - 1,
        ).subrange(8 * i, 8 * i + 8));
    } else {
        assert(pointer_bytes(strs, base, n).subrange(8 * i, 8 * i + 8) =~= word_bytes(
            (base + strings_len(strs, i)) as usize,
        ));
    }
}

/// What a program finds on its initial stack: the number of arguments at
/// the stack pointer, then a pointer to each argument, then a null word; and
/// each of those pointers leads to the bytes of its argument and a zero byte.
pub proof fn lemma_image_argv(args: Seq<Seq<u8>>, envs: Seq<Seq<u8>>, sp: int, i: int)
    requires
        0 <= i < args.len(),
        0 <= sp,
        sp + image_len(args, envs) <= usize::MAX,
    ensures
        ({
            let img = image_bytes(args, envs, sp);
            let at = strings_base(args, envs, sp) + strings_len(args, i);
            &&& img.len() == image_len(args, envs)
            &&& img.subrange(0, 8) == word_bytes(args.len() as usize)
            &&& img.subrange(8 + 8 * i, 16 + 8 * i) == word_bytes(at as usize)
            &&& img.subrange(8 + 8 * args.len() as int, 16 + 8 * args.len() as int) == word_bytes(0)
            &&& sp + 8 + 8 * (args.len() + 1) <= at
            &&& at + args[i].len() + 1 <= sp + img.len()
            &&& img.subrange(at - sp, at - sp + args[i].len() + 1) == args[i].push(0u8)
        }),
{
    let n = args.len() as int;
    let m = envs.len() as int;
    let base = strings_base(args, envs, sp);
    let img = image_bytes(args, envs, sp);
    lemma_strings_len(args, n);
    lemma_strings_len(args, i);
    lemma_strings_len(envs, m);
    lemma_strings_len_mono(args, i, n);
    lemma_pointer_at(args, base, n, i);
    lemma_string_at(args, n, i);
    vstd::bytes::lemma_auto_spec_u64_to_from_le_bytes();
    let a = word_bytes(args.len() as usize);
    let b = pointer_bytes(args, base, n);
    let c = word_bytes(0);
    let d = pointer_bytes(envs, base + strings_len(args, n), m);
    let f = strings_bytes(args, n);
    let g = strings_bytes(envs, m);
    assert(a.len() == 8 && c.len() == 8);
    assert(b.len() == 8 * n);
    assert(d.len() == 8 * m);
    assert(f.len() == strings_len(args, n));
    assert(g.len() == strings_len(envs, m));
    assert(img == a + b + c + d + c + f + g);
    assert(img.len() == image_len(args, envs));
    assert(img.subrange(0, 8) =~= a);
    assert(img.subrange(8 + 8 * i, 16 + 8 * i) =~= b.subrange(8 * i, 8 * i + 8));
    assert(img.subrange(8 + 8 * n, 16 + 8 * n) =~= c);
    let off = strings_len(args, i);
    let lead = 8 + 8 * (n + 1) + 8 * (m + 1);
    assert(base - sp == lead);
    assert(off + args[i].len() + 1 <= f.len());
    assert(img.subrange(lead + off, lead + off + args[i].len() + 1) =~= f.subrange(
        off,
        off + args[i].len() + 1,
    ));
}

/// The initial stack of a program that starts with the arguments `args` and
/// the environment `envs` on a stack that ends at `top`.  Nothing where the
/// initial stack is larger than a stack.
pub fn build_stack_image(args: &Vec<Vec<u8>>, envs: &Vec<Vec<u8>>, top: usize) -> (r: Option<
    StackImage,
>)
    requires
        top >= USER_STACK_SIZE,
        top % 16 == 0,
    ensures
        r is Some <==> image_len(views(args@), views(envs@)) <= USER_STACK_SIZE,
        r matches Some(img) ==> {
            &&& img.sp == image_sp(views(args@), views(envs@), top)
            &&& img.argv == img.sp + 8
            &&& img.envp == img.sp + 8 + 8 * (args@.len() + 1)
            &&& img.bytes@ == image_bytes(views(args@), views(envs@), img.sp as int)
            &&& top - USER_STACK_SIZE <= img.sp
            &&& img.sp + img.bytes@.len() <= top
        },
{
    let ghost a = views(args@);
    let ghost e = views(envs@);
    let argc = args.len();
    let envc = envs.len();
    assert(a.len() == argc && e.len() == envc);
    // The size of the strings, with an eye on the size of the stack.
    let mut arg_bytes: usize = 0;
    let mut i: usize = 0;
    while i < argc
        invariant
            i <= argc,
            argc == args@.len(),
            a == views(args@),
            a.len() == argc,
            e.len() == envc,
            e == views(envs@),
            arg_bytes == strings_len(a, i as int),
            arg_bytes <= USER_STACK_SIZE,
        decreases argc - i,
    {
        let len = args[i].len();
        assert(a[i as int] == args@[i as int]@);
        assert(strings_len(a, i + 1) == strings_len(a, i as int) + a[i as int].len() + 1);
        if len >= USER_STACK_SIZE - arg_bytes {
            proof {
                lemma_strings_len_mono(a, i + 1, argc as int);
                lemma_strings_len(e, envc as int);
            }
            return None;
        }
        arg_bytes = arg_bytes + len + 1;
        i += 1;
    }
    let mut env_bytes: usize = 0;
    let mut i: usize = 0;
    while i < envc
        invariant
            i <= envc,
            envc == envs@.len(),
            e == views(envs@),
            a.len() == argc,
            e.len() == envc,
            a == views(args@),
            env_bytes == strings_len(e, i as int),
            env_bytes <= USER_STACK_SIZE,
        decreases envc - i,
    {
        let len = envs[i].len();
        assert(e[i as int] == envs@[i as int]@);
        assert(strings_len(e, i + 1) == strings_len(e, i as int) + e[i as int].len() + 1);
        if len >= USER_STACK_SIZE - env_bytes {
            proof {
                lemma_strings_len_mono(e, i + 1, envc as int);
                lemma_strings_len(a, argc as int);
            }
            return None;
        }
        env_bytes = env_bytes + len + 1;
        i += 1;
    }
    proof {
        lemma_strings_len(a, argc as int);
        lemma_strings_len(e, envc as int);
    }
    if argc > USER_STACK_SIZE || envc > USER_STACK_SIZE {
        return None;
    }
    let total: usize = 8 + 8 * (argc + 1) + 8 * (envc + 1) + arg_bytes + env_bytes;
    if total > USER_STACK_SIZE {
        return None;
    }
    let raw: usize = top - total;
    let sp: usize = raw - raw % 16;
    let base: usize = sp + 8 + 8 * (argc + 1) + 8 * (envc + 1);
    let mut out: Vec<u8> = Vec::new();
    put_word(&mut out, argc);
    let ghost head = out@;
    // The pointers to the arguments.
    let mut at: usize = base;
    let mut i: usize = 0;
    assert(out@ =~= head + pointer_bytes(a, base as int, 0));
    while i < argc
        invariant
            i <= argc,
            argc == args@.len(),
            a == views(args@),
            at == base + strings_len(a, i as int),
            strings_len(a, argc as int) == arg_bytes,
            base + arg_bytes + env_bytes <= top,
            out@ == head + pointer_bytes(a, base as int, i as int),
        decreases argc - i,
    {
        put_word(&mut out, at);
        proof {
            lemma_strings_len_mono(a, i as int, argc as int);
        }
        at = at + args[i].len() + 1;
        i += 1;
        assert(out@ =~= head + pointer_bytes(a, base as int, i as int));
    }
    put_word(&mut out, 0);
    let ghost head = out@;
    let env_base: usize = at;
    let mut i: usize = 0;
    assert(out@ =~= head + pointer_bytes(e, env_base as int, 0));
    while i < envc
        invariant
            i <= envc,
            envc == envs@.len(),
            e == views(envs@),
            at == env_base + strings_len(e, i as int),
            strings_len(e, envc as int) == env_bytes,
            env_base + env_bytes <= top,
            out@ == head + pointer_bytes(e, env_base as int, i as int),
        decreases envc - i,
    {
        put_word(&mut out, at);
        proof {
            lemma_strings_len_mono(e, i as int, envc as int);
        }
        at = at + envs[i].len() + 1;
        i += 1;
        assert(out@ =~= head + pointer_bytes(e, env_base as int, i as int));
    }
    put_word(&mut out, 0);
    let ghost head = out@;
    let mut i: usize = 0;
    assert(out@ =~= head + strings_bytes(a, 0));
    while i < argc
        invariant
            i <= argc,
            argc == args@.len(),
            a == views(args@),
            out@ == head + strings_bytes(a, i as int),
        decreases argc - i,
    {
        let s = &args[i];
        let ghost before = out@;
        let mut j: usize = 0;
        while j < s.len()
            invariant
                j <= s@.len(),
                out@ == before + s@.subrange(0, j as int),
            decreases s@.len() - j,
        {
            out.push(s[j]);
            j += 1;
            assert(out@ =~= before + s@.subrange(0, j as int));
        }
        out.push(0);
        i += 1;
        assert(s@.subrange(0, s@.len() as int) =~= s@);
        assert(out@ =~= head + strings_bytes(a, i as int));
    }
    let ghost head = out@;
    let mut i: usize = 0;
    assert(out@ =~= head + strings_bytes(e, 0));
    while i < envc
        invariant
            i <= envc,
            envc == envs@.len(),
            e == views(envs@),
            out@ == head + strings_bytes(e, i as int),
        decreases envc - i,
    {
        let s = &envs[i];
        let ghost before = out@;
        let mut j: usize = 0;
        while j < s.len()
            invariant
                j <= s@.len(),
                out@ == before + s@.subrange(0, j as int),
            decreases s@.len() - j,
        {
            out.push(s[j]);
            j += 1;
            assert(out@ =~= before + s@.subrange(0, j as int));
        }
        out.push(0);
        i += 1;
        assert(s@.subrange(0, s@.len() as int) =~= s@);
        assert(out@ =~= head + strings_bytes(e, i as int));
    }
    proof {
        assert(out@ =~= image_bytes(a, e, sp as int));
        lemma_strings_len(a, argc as int);
        lemma_strings_len(e, envc as int);
        vstd::bytes::lemma_auto_spec_u64_to_from_le_bytes();
    }
    Some(StackImage { sp, argv: sp + 8, envp: sp + 8 + 8 * (argc + 1), bytes: out })
}

} // verus!
