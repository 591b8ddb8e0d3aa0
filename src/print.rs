use vstd::prelude::*;

verus! {

/// Decimal digits of `n`, most significant first, as ASCII bytes.
pub open spec fn dec_digits(n: nat) -> Seq<u8>
    decreases n,
{
    if n > 9 {
        dec_digits(n / 10).push((48 + n % 10) as u8)
    } else {
        seq![(48 + n) as u8]
    }
}

/// ASCII byte of a hexadecimal digit below 16, lower case.
pub open spec fn hex_char(d: nat) -> u8 {
    if d < 10 {
        (48 + d) as u8
    } else {
        (97 + d - 10) as u8
    }
}

/// Hexadecimal digits of `n`, most significant first, lower case.
pub open spec fn hex_digits(n: nat) -> Seq<u8>
    decreases n,
{
    if n > 15 {
        hex_digits(n / 16).push(hex_char(n % 16))
    } else {
        seq![hex_char(n)]
    }
}

/// One piece of output: raw bytes, a decimal number, or a `0x`-prefixed
/// hexadecimal number.
pub enum PrintArg {
    String(Vec<u8>),
    Number(usize),
    Hex(usize),
}

/// The bytes that one piece of output stands for.
pub open spec fn arg_bytes(a: PrintArg) -> Seq<u8> {
    match a {
        PrintArg::String(s) => s@,
        PrintArg::Number(n) => dec_digits(n as nat),
        PrintArg::Hex(n) => seq![48u8, 120u8] + hex_digits(n as nat),
    }
}

/// The bytes that a list of output pieces stands for, in order.
pub open spec fn args_bytes(args: Seq<PrintArg>) -> Seq<u8>
    decreases args.len(),
{
    if args.len() == 0 {
        Seq::empty()
    } else {
        args_bytes(args.drop_last()) + arg_bytes(args.last())
    }
}

/// Appends the decimal digits of `n` to `out`.
pub fn print_num(out: &mut Vec<u8>, n: usize)
    ensures
        final(out)@ == old(out)@ + dec_digits(n as nat),
    decreases n,
{
    if n > 9 {
        print_num(out, n / 10);
    }
    let c: u8 = 48u8 + (n % 10) as u8;
    out.push(c);
}

/// Appends the lower-case hexadecimal digits of `n` to `out`.
pub fn print_hex(out: &mut Vec<u8>, n: usize)
    ensures
        final(out)@ == old(out)@ + hex_digits(n as nat),
    decreases n,
{
    if n > 15 {
        print_hex(out, n / 16);
    }
    let u: u8 = (n % 16) as u8;
    let c: u8 = if u <= 9 {
        48u8 + u
    } else {
        97u8 + u - 10
    };
    out.push(c);
}

/// Appends the output of each piece of `args` to `out`, in order.
pub fn print(out: &mut Vec<u8>, args: &[PrintArg])
    ensures
        final(out)@ == old(out)@ + args_bytes(args@),
{
    let ghost start = out@;
    let mut i: usize = 0;
    while i < args.len()
        invariant
            i <= args@.len(),
            out@ == start + args_bytes(args@.take(i as int)),
        decreases args@.len() - i,
    {
        let ghost before = out@;
        match &args[i] {
            PrintArg::String(s) => {
                let mut j: usize = 0;
                while j < s.len()
                    invariant
                        j <= s@.len(),
                        out@ == before + s@.take(j as int),
                    decreases s@.len() - j,
                {
                    out.push(s[j]);
                    proof {
                        assert(s@.take(j as int + 1) =~= s@.take(j as int).push(s@[j as int]));
                    }
                    j = j + 1;
                }
                assert(s@.take(s@.len() as int) =~= s@);
            },
            PrintArg::Number(n) => {
                print_num(out, *n);
            },
            PrintArg::Hex(n) => {
                out.push(48u8);
                out.push(120u8);
                print_hex(out, *n);
            },
        }
        proof {
            assert(args@.take(i as int + 1).drop_last() =~= args@.take(i as int));
            assert(args@.take(i as int + 1).last() == args@[i as int]);
        }
        assert(out@ =~= start + args_bytes(args@.take(i as int + 1)));
        i = i + 1;
    }
    assert(args@.take(args@.len() as int) =~= args@);
}

} // verus!
