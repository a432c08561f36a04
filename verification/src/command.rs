//! Parsing of command text: splitting a command file into its command lines,
//! and splitting one command line into the program and its arguments.

use vstd::prelude::*;
use vstd::string::StrSliceExecFns;

verus! {

/// ASCII whitespace, as `char::is_ascii_whitespace` classifies it.
pub open spec fn is_ascii_ws(c: char) -> bool {
    c == ' ' || c == '\t' || c == '\n' || c == '\r' || c == '\x0c'
}

/// Exec counterpart of `is_ascii_ws`.
pub fn is_ascii_ws_char(c: char) -> (r: bool)
    ensures
        r == is_ascii_ws(c),
{
    c == ' ' || c == '\t' || c == '\n' || c == '\r' || c == '\x0c'
}

/// Length of the leading run of non-whitespace characters.
pub open spec fn token_len(s: Seq<char>) -> nat
    decreases s.len(),
{
    if s.len() == 0 || is_ascii_ws(s[0]) {
        0
    } else {
        1 + token_len(s.drop_first())
    }
}

/// A scan that saw no whitespace before position `k` and whitespace (or the
/// end) at `k` has found the leading token's length.
pub proof fn lemma_token_len_from_scan(s: Seq<char>, k: int)
    requires
        0 <= k <= s.len(),
        forall|j: int| 0 <= j < k ==> !is_ascii_ws(#[trigger] s[j]),
        k == s.len() || is_ascii_ws(s[k]),
    ensures
        token_len(s) == k,
    decreases k,
{
    if k > 0 {
        let t = s.drop_first();
        assert(forall|j: int| 0 <= j < t.len() ==> #[trigger] t[j] == s[j + 1]);
        lemma_token_len_from_scan(t, k - 1);
    }
}

/// The leading token never runs past the end of the text.
pub proof fn lemma_token_len_le(s: Seq<char>)
    ensures
        token_len(s) <= s.len(),
    decreases s.len(),
{
    if s.len() > 0 && !is_ascii_ws(s[0]) {
        lemma_token_len_le(s.drop_first());
    }
}

/// The whitespace-separated words of a command line, in order.
pub open spec fn split_ws(s: Seq<char>) -> Seq<Seq<char>>
    decreases s.len(),
    via split_ws_decreases
{
    if s.len() == 0 {
        Seq::empty()
    } else if is_ascii_ws(s[0]) {
        split_ws(s.drop_first())
    } else {
        let k = 1 + token_len(s.drop_first());
        seq![s.take(k as int)] + split_ws(s.skip(k as int))
    }
}

#[via_fn]
proof fn split_ws_decreases(s: Seq<char>) {
    if s.len() > 0 && !is_ascii_ws(s[0]) {
        lemma_token_len_le(s.drop_first());
    }
}

/// A command has no words exactly when it is empty or all whitespace.
pub proof fn lemma_split_ws_empty_iff_blank(s: Seq<char>)
    ensures
        split_ws(s).len() == 0 <==> (forall|i: int| 0 <= i < s.len() ==> is_ascii_ws(#[trigger] s[i])),
    decreases s.len(),
{
    if s.len() > 0 {
        if is_ascii_ws(s[0]) {
            let t = s.drop_first();
            lemma_split_ws_empty_iff_blank(t);
            assert(forall|j: int| 0 <= j < t.len() ==> #[trigger] t[j] == s[j + 1]);
            if forall|i: int| 0 <= i < t.len() ==> is_ascii_ws(#[trigger] t[i]) {
                assert forall|i: int| 0 <= i < s.len() implies is_ascii_ws(#[trigger] s[i]) by {
                    if i > 0 {
                        assert(t[i - 1] == s[i]);
                    }
                }
            }
        } else {
            assert(split_ws(s).len() > 0);
        }
    }
}

/// Splits a command line into its whitespace-separated words. This is what
/// decides which program is spawned and with which arguments.
pub fn split_whitespace_owned(s: &str) -> (tokens: Vec<String>)
    ensures
        tokens@.map_values(|t: String| t@) == split_ws(s@),
{
    let n = s.unicode_len();
    let mut tokens: Vec<String> = Vec::new();
    let mut i: usize = 0;
    proof {
        assert(s@.skip(0) =~= s@);
        assert(tokens@.map_values(|t: String| t@) + split_ws(s@) =~= split_ws(s@));
    }
    while i < n
        invariant
            n == s@.len(),
            i <= n,
            tokens@.map_values(|t: String| t@) + split_ws(s@.skip(i as int)) == split_ws(s@),
        decreases n - i,
    {
        let c = s.get_char(i);
        if is_ascii_ws_char(c) {
            proof {
                assert(s@.skip(i as int)[0] == s@[i as int]);
                assert(s@.skip(i as int).drop_first() =~= s@.skip(i + 1));
            }
            i = i + 1;
        } else {
            let start = i;
            let mut j = i + 1;
            while j < n && !is_ascii_ws_char(s.get_char(j))
                invariant
                    n == s@.len(),
                    start < j <= n,
                    forall|m: int| start <= m < j ==> !is_ascii_ws(#[trigger] s@[m]),
                decreases n - j,
            {
                j = j + 1;
            }
            let token = s.substring_char(start, j).to_owned();
            proof {
                let rest = s@.skip(start as int);
                assert(forall|m: int| 0 <= m < rest.len() ==> #[trigger] rest[m] == s@[m + start]);
                lemma_token_len_from_scan(rest, j - start);
                assert(rest.take(j - start) =~= s@.subrange(start as int, j as int));
                assert(rest.skip(j - start) =~= s@.skip(j as int));
                assert(split_ws(rest) == seq![s@.subrange(start as int, j as int)] + split_ws(
                    s@.skip(j as int),
                ));
                let old_views = tokens@.map_values(|t: String| t@);
                assert((old_views + split_ws(rest)) =~= (old_views.push(token@) + split_ws(
                    s@.skip(j as int),
                )));
                assert(tokens@.push(token).map_values(|t: String| t@) =~= old_views.push(token@));
            }
            tokens.push(token);
            i = j;
        }
    }
    proof {
        assert(s@.skip(n as int).len() == 0);
        assert(tokens@.map_values(|t: String| t@) + split_ws(s@.skip(n as int)) =~= tokens@
            .map_values(|t: String| t@));
    }
    tokens
}

/// Number of characters before the first line break.
pub open spec fn line_len(s: Seq<char>) -> nat
    decreases s.len(),
{
    if s.len() == 0 || s[0] == '\n' {
        0
    } else {
        1 + line_len(s.drop_first())
    }
}

/// A scan that saw no line break before position `k` and a break (or the end)
/// at `k` has found the leading line's length.
pub proof fn lemma_line_len_from_scan(s: Seq<char>, k: int)
    requires
        0 <= k <= s.len(),
        forall|j: int| 0 <= j < k ==> #[trigger] s[j] != '\n',
        k == s.len() || s[k] == '\n',
    ensures
        line_len(s) == k,
    decreases k,
{
    if k > 0 {
        let t = s.drop_first();
        assert(forall|j: int| 0 <= j < t.len() ==> #[trigger] t[j] == s[j + 1]);
        lemma_line_len_from_scan(t, k - 1);
    }
}

/// The line with its trailing ASCII whitespace removed.
pub open spec fn trim_end_ws(line: Seq<char>) -> Seq<char>
    decreases line.len(),
{
    if line.len() == 0 {
        line
    } else if is_ascii_ws(line.last()) {
        trim_end_ws(line.drop_last())
    } else {
        line
    }
}

/// A scan that saw only whitespace from position `m` to the end, with a
/// non-whitespace character just before `m`, has found the trimmed line.
pub proof fn lemma_trim_end_from_scan(line: Seq<char>, m: int)
    requires
        0 <= m <= line.len(),
        forall|j: int| m <= j < line.len() ==> is_ascii_ws(#[trigger] line[j]),
        m == 0 || !is_ascii_ws(line[m - 1]),
    ensures
        trim_end_ws(line) == line.take(m),
    decreases line.len(),
{
    if line.len() > m {
        lemma_trim_end_from_scan(line.drop_last(), m);
        assert(line.drop_last().take(m) =~= line.take(m));
    } else {
        assert(line.take(m) =~= line);
    }
}

/// The commands of a command file: one candidate command per line, trailing
/// whitespace trimmed, blank lines dropped.
pub open spec fn command_lines(s: Seq<char>) -> Seq<Seq<char>>
    decreases s.len(),
{
    if s.len() == 0 {
        Seq::empty()
    } else {
        let k = line_len(s) as int;
        let line = trim_end_ws(s.take(k));
        let rest = if k < s.len() {
            command_lines(s.skip(k + 1))
        } else {
            Seq::<Seq<char>>::empty()
        };
        if line.len() == 0 {
            rest
        } else {
            seq![line] + rest
        }
    }
}

/// Splits the contents of a command file into the commands to load: one per
/// non-empty line, with trailing whitespace removed.
pub fn parse_command_lines(contents: &str) -> (commands: Vec<String>)
    ensures
        commands@.map_values(|t: String| t@) == command_lines(contents@),
{
    let n = contents.unicode_len();
    let mut commands: Vec<String> = Vec::new();
    let mut i: usize = 0;
    proof {
        assert(contents@.skip(0) =~= contents@);
        assert(commands@.map_values(|t: String| t@) + command_lines(contents@) =~= command_lines(
            contents@,
        ));
    }
    while i < n
        invariant
            n == contents@.len(),
            i <= n,
            commands@.map_values(|t: String| t@) + command_lines(contents@.skip(i as int))
                == command_lines(contents@),
        decreases n - i,
    {
        let start = i;
        let mut j = i;
        while j < n && contents.get_char(j) != '\n'
            invariant
                n == contents@.len(),
                start <= j <= n,
                forall|m: int| start <= m < j ==> #[trigger] contents@[m] != '\n',
            decreases n - j,
        {
            j = j + 1;
        }
        // Trim trailing whitespace off the line `[start, j)`.
        let mut m = j;
        while m > start && is_ascii_ws_char(contents.get_char(m - 1))
            invariant
                n == contents@.len(),
                start <= m <= j <= n,
                forall|q: int| m <= q < j ==> is_ascii_ws(#[trigger] contents@[q]),
            decreases m,
        {
            m = m - 1;
        }
        proof {
            let rest = contents@.skip(start as int);
            assert(forall|q: int| 0 <= q < rest.len() ==> #[trigger] rest[q] == contents@[q
                + start]);
            lemma_line_len_from_scan(rest, j - start);
            let rawline = rest.take(j - start);
            assert(rawline =~= contents@.subrange(start as int, j as int));
            lemma_trim_end_from_scan(rawline, m - start);
            assert(rawline.take(m - start) =~= contents@.subrange(start as int, m as int));
            if j < n {
                assert(rest.skip(j - start + 1) =~= contents@.skip(j + 1));
            }
        }
        if m > start {
            let command = contents.substring_char(start, m).to_owned();
            proof {
                let old_views = commands@.map_values(|t: String| t@);
                let rest_cmds = if j < n {
                    command_lines(contents@.skip(j + 1))
                } else {
                    Seq::<Seq<char>>::empty()
                };
                assert(command_lines(contents@.skip(start as int)) == seq![command@] + rest_cmds);
                assert((old_views + (seq![command@] + rest_cmds)) =~= (old_views.push(command@)
                    + rest_cmds));
                assert(commands@.push(command).map_values(|t: String| t@) =~= old_views.push(
                    command@,
                ));
            }
            commands.push(command);
        }
        if j < n {
            i = j + 1;
        } else {
            i = n;
            proof {
                assert(command_lines(contents@.skip(i as int)).len() == 0);
            }
        }
    }
    proof {
        assert(command_lines(contents@.skip(n as int)).len() == 0);
        assert(commands@.map_values(|t: String| t@) + command_lines(contents@.skip(n as int))
            =~= commands@.map_values(|t: String| t@));
    }
    commands
}

} // verus!
