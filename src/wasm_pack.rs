//! The `wasm-pack` invocation that compiles an agent source file to a
//! WebAssembly package.

use vstd::prelude::*;

verus! {

/// The character for a decimal digit `d < 10`.
pub open spec fn digit_char(d: nat) -> char {
    seq!['0', '1', '2', '3', '4', '5', '6', '7', '8', '9'][d as int]
}

/// The decimal digits of `n`, most significant first, with no sign and no
/// leading zeros.
pub open spec fn decimal(n: nat) -> Seq<char>
    decreases n,
{
    if n < 10 {
        seq![digit_char(n)]
    } else {
        decimal(n / 10).push(digit_char(n % 10))
    }
}

/// Relies on the standard `ToString` of `u8` (through `Display`), which
/// writes the number in decimal.
#[verifier::external_body]
fn decimal_string(n: u8) -> (r: String)
    ensures
        r@ == decimal(n as nat),
{
    n.to_string()
}

/// The arguments given to `wasm-pack` to build `input` into `output`: a web
/// target, output named `rig_wasm`, optimisation level `opt_level`, and
/// TypeScript definitions when `typescript` holds.
pub open spec fn wasm_pack_arg_seq(input: Seq<char>, output: Seq<char>, opt_level: u8, typescript: bool) -> Seq<Seq<char>> {
    let base = seq![
        "build"@,
        "--target"@,
        "web"@,
        "--out-dir"@,
        output,
        "--out-name"@,
        "rig_wasm"@,
        "--"@,
        input,
        "-O"@,
        decimal(opt_level as nat),
    ];
    if typescript {
        base.push("--typescript"@)
    } else {
        base
    }
}

/// The arguments of the `wasm-pack` run that compiles `input_file` into
/// `output_dir`.
pub fn wasm_pack_args(input_file: &str, output_dir: &str, opt_level: u8, generate_typescript: bool) -> (r: Vec<String>)
    ensures
        r@.map_values(|s: String| s@) == wasm_pack_arg_seq(input_file@, output_dir@, opt_level, generate_typescript),
{
    let mut args: Vec<String> = Vec::new();
    args.push("build".to_owned());
    args.push("--target".to_owned());
    args.push("web".to_owned());
    args.push("--out-dir".to_owned());
    args.push(output_dir.to_owned());
    args.push("--out-name".to_owned());
    args.push("rig_wasm".to_owned());
    args.push("--".to_owned());
    args.push(input_file.to_owned());
    args.push("-O".to_owned());
    args.push(decimal_string(opt_level));
    if generate_typescript {
        args.push("--typescript".to_owned());
    }
    assert(args@.map_values(|s: String| s@) =~= wasm_pack_arg_seq(
        input_file@,
        output_dir@,
        opt_level,
        generate_typescript,
    ));
    args
}

} // verus!
