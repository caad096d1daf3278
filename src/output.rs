use vstd::prelude::*;

verus! {

/// The text of a record that reports a name that is neither a command nor a variable.
pub open spec fn unknown_command_text(name: Seq<char>) -> Seq<char> {
    "unknown command \""@ + name + "\"\n"@
}

/// The text of a command's usage record.
pub open spec fn usage_text(name: Seq<char>, usage: Seq<char>) -> Seq<char> {
    name + " "@ + usage + "\n"@
}

/// The decimal digits of `n`, most significant first.
pub open spec fn decimal(n: nat) -> Seq<char>
    decreases n,
{
    if n < 10 {
        seq!["0123456789"@[n as int]]
    } else {
        decimal(n / 10).push("0123456789"@[(n % 10) as int])
    }
}

/// Writes `s` to the sink.
pub fn print(out: &mut String, s: &str)
    ensures
        final(out)@ == old(out)@ + s@,
{
    out.append(s);
}

/// Writes `s` and a line break to the sink.
pub fn println(out: &mut String, s: &str)
    ensures
        final(out)@ == old(out)@ + s@ + "\n"@,
{
    out.append(s);
    out.append("\n");
}

pub fn print_unknown_command(out: &mut String, command: &str)
    ensures
        final(out)@ == old(out)@ + unknown_command_text(command@),
{
    out.append("unknown command \"");
    out.append(command);
    out.append("\"\n");
}

pub fn print_command_usage(out: &mut String, name: &str, usage: &str)
    ensures
        final(out)@ == old(out)@ + usage_text(name@, usage@),
{
    out.append(name);
    out.append(" ");
    out.append(usage);
    out.append("\n");
}

/// The decimal text of `n`.
pub fn decimal_string(n: u64) -> (r: String)
    ensures
        r@ == decimal(n as nat),
    decreases n,
{
    let digits = "0123456789";
    proof {
        reveal_strlit("0123456789");
    }
    if n < 10 {
        let d = n as usize;
        let piece = digits.substring_char(d, d + 1);
        assert(piece@ =~= seq![digits@[d as int]]);
        String::from_str(piece)
    } else {
        let mut s = decimal_string(n / 10);
        let d = (n % 10) as usize;
        let piece = digits.substring_char(d, d + 1);
        assert(piece@ =~= seq![digits@[d as int]]);
        s.append(piece);
        assert(s@ =~= decimal(n as nat));
        s
    }
}

} // verus!
