//! The distribution logos: colour tokens of fastfetch's logo table, the logo table itself,
//! and the layout of logo and information side by side.
use vstd::prelude::*;
use crate::text::{
    chars_of, contains, contains_exec, copy_range, decimal, find_char, find_char_exec, has_char,
    lines, lines_exec, lower_text, lowercase_chars, lemma_lower_text_twice, all_ascii, matches_at, push_chars, push_decimal,
    push_repeat, repeat, replace, replace_exec, replace_from, same_chars, split_char,
    split_char_exec, starts_with, starts_with_exec, str_to_lowercase, string_of, trim, trim_both,
    trim_class, trim_end, trim_ws, views, CharClass,
};

verus! {

/// The colour token without surrounding spaces and trailing commas; its quotes kept.
pub open spec fn unpadded_color_token(token: Seq<char>) -> Seq<char> {
    trim_end(trim(token), CharClass::Exactly(','))
}

/// The colour token as the logo table writes it, without spaces, trailing commas and quotes.
pub open spec fn clean_color_token(token: Seq<char>) -> Seq<char> {
    trim(trim_both(unpadded_color_token(token), CharClass::Exactly('"')))
}

/// The escape sequence of a named fastfetch colour.
pub open spec fn named_ff_color(clean: Seq<char>) -> Option<Seq<char>> {
    if clean == "FF_COLOR_FG_BLACK"@ {
        Some("\x1b[30m"@)
    } else if clean == "FF_COLOR_FG_RED"@ {
        Some("\x1b[31m"@)
    } else if clean == "FF_COLOR_FG_GREEN"@ {
        Some("\x1b[32m"@)
    } else if clean == "FF_COLOR_FG_YELLOW"@ {
        Some("\x1b[33m"@)
    } else if clean == "FF_COLOR_FG_BLUE"@ {
        Some("\x1b[34m"@)
    } else if clean == "FF_COLOR_FG_MAGENTA"@ {
        Some("\x1b[35m"@)
    } else if clean == "FF_COLOR_FG_CYAN"@ {
        Some("\x1b[36m"@)
    } else if clean == "FF_COLOR_FG_WHITE"@ {
        Some("\x1b[37m"@)
    } else if clean == "FF_COLOR_FG_LIGHT_BLACK"@ {
        Some("\x1b[90m"@)
    } else if clean == "FF_COLOR_FG_LIGHT_RED"@ {
        Some("\x1b[91m"@)
    } else if clean == "FF_COLOR_FG_LIGHT_GREEN"@ {
        Some("\x1b[92m"@)
    } else if clean == "FF_COLOR_FG_LIGHT_YELLOW"@ {
        Some("\x1b[93m"@)
    } else if clean == "FF_COLOR_FG_LIGHT_BLUE"@ {
        Some("\x1b[94m"@)
    } else if clean == "FF_COLOR_FG_LIGHT_MAGENTA"@ {
        Some("\x1b[95m"@)
    } else if clean == "FF_COLOR_FG_LIGHT_CYAN"@ {
        Some("\x1b[96m"@)
    } else if clean == "FF_COLOR_FG_LIGHT_WHITE"@ {
        Some("\x1b[97m"@)
    } else if clean == "FF_COLOR_FG_DEFAULT"@ {
        Some("\x1b[39m"@)
    } else {
        None
    }
}

/// The name of ANSI colour `c` (0 to 7) as fastfetch's colour macros spell it.
pub open spec fn ansi_color_word(c: int) -> Seq<char> {
    if c == 0 {
        "BLACK"@
    } else if c == 1 {
        "RED"@
    } else if c == 2 {
        "GREEN"@
    } else if c == 3 {
        "YELLOW"@
    } else if c == 4 {
        "BLUE"@
    } else if c == 5 {
        "MAGENTA"@
    } else if c == 6 {
        "CYAN"@
    } else {
        "WHITE"@
    }
}

/// The escape that selects foreground colour code `n`.
pub open spec fn fg_escape(n: nat) -> Seq<char> {
    "\x1b["@ + decimal(n) + "m"@
}

proof fn lemma_two_digits(n: nat)
    requires
        10 <= n < 100,
    ensures
        decimal(n) == seq![crate::text::digit_char((n / 10) as int), crate::text::digit_char(
            (n % 10) as int,
        )],
{
    reveal_with_fuel(decimal, 2);
    assert(decimal(n) == decimal(n / 10).push(crate::text::digit_char((n % 10) as int)));
    assert(decimal(n / 10) == seq![crate::text::digit_char((n / 10) as int)]);
}

/// Each named fastfetch colour gives its standard foreground code: `FF_COLOR_FG_<c>` gives
/// `ESC[3<n>m` and `FF_COLOR_FG_LIGHT_<c>` gives `ESC[9<n>m`, `n` the ANSI index of `c`
/// (black 0, red 1, green 2, yellow 3, blue 4, magenta 5, cyan 6, white 7), and
/// `FF_COLOR_FG_DEFAULT` gives the default foreground `ESC[39m`.
#[verifier::rlimit(60)]
pub proof fn lemma_named_colors(c: int)
    requires
        0 <= c < 8,
    ensures
        named_ff_color("FF_COLOR_FG_"@ + ansi_color_word(c)) == Some(fg_escape((30 + c) as nat)),
        named_ff_color("FF_COLOR_FG_LIGHT_"@ + ansi_color_word(c)) == Some(
            fg_escape((90 + c) as nat),
        ),
        named_ff_color("FF_COLOR_FG_DEFAULT"@) == Some(fg_escape(39)),
{
    reveal_strlit("FF_COLOR_FG_BLACK");
    assert("FF_COLOR_FG_BLACK"@ =~= seq!['F', 'F', '_', 'C', 'O', 'L', 'O', 'R', '_', 'F', 'G', '_', 'B', 'L', 'A', 'C', 'K']);
    reveal_strlit("FF_COLOR_FG_RED");
    assert("FF_COLOR_FG_RED"@ =~= seq!['F', 'F', '_', 'C', 'O', 'L', 'O', 'R', '_', 'F', 'G', '_', 'R', 'E', 'D']);
    reveal_strlit("FF_COLOR_FG_GREEN");
    assert("FF_COLOR_FG_GREEN"@ =~= seq!['F', 'F', '_', 'C', 'O', 'L', 'O', 'R', '_', 'F', 'G', '_', 'G', 'R', 'E', 'E', 'N']);
    reveal_strlit("FF_COLOR_FG_YELLOW");
    assert("FF_COLOR_FG_YELLOW"@ =~= seq!['F', 'F', '_', 'C', 'O', 'L', 'O', 'R', '_', 'F', 'G', '_', 'Y', 'E', 'L', 'L', 'O', 'W']);
    reveal_strlit("FF_COLOR_FG_BLUE");
    assert("FF_COLOR_FG_BLUE"@ =~= seq!['F', 'F', '_', 'C', 'O', 'L', 'O', 'R', '_', 'F', 'G', '_', 'B', 'L', 'U', 'E']);
    reveal_strlit("FF_COLOR_FG_MAGENTA");
    assert("FF_COLOR_FG_MAGENTA"@ =~= seq!['F', 'F', '_', 'C', 'O', 'L', 'O', 'R', '_', 'F', 'G', '_', 'M', 'A', 'G', 'E', 'N', 'T', 'A']);
    reveal_strlit("FF_COLOR_FG_CYAN");
    assert("FF_COLOR_FG_CYAN"@ =~= seq!['F', 'F', '_', 'C', 'O', 'L', 'O', 'R', '_', 'F', 'G', '_', 'C', 'Y', 'A', 'N']);
    reveal_strlit("FF_COLOR_FG_WHITE");
    assert("FF_COLOR_FG_WHITE"@ =~= seq!['F', 'F', '_', 'C', 'O', 'L', 'O', 'R', '_', 'F', 'G', '_', 'W', 'H', 'I', 'T', 'E']);
    reveal_strlit("FF_COLOR_FG_LIGHT_BLACK");
    assert("FF_COLOR_FG_LIGHT_BLACK"@ =~= seq!['F', 'F', '_', 'C', 'O', 'L', 'O', 'R', '_', 'F', 'G', '_', 'L', 'I', 'G', 'H', 'T', '_', 'B', 'L', 'A', 'C', 'K']);
    reveal_strlit("FF_COLOR_FG_LIGHT_RED");
    assert("FF_COLOR_FG_LIGHT_RED"@ =~= seq!['F', 'F', '_', 'C', 'O', 'L', 'O', 'R', '_', 'F', 'G', '_', 'L', 'I', 'G', 'H', 'T', '_', 'R', 'E', 'D']);
    reveal_strlit("FF_COLOR_FG_LIGHT_GREEN");
    assert("FF_COLOR_FG_LIGHT_GREEN"@ =~= seq!['F', 'F', '_', 'C', 'O', 'L', 'O', 'R', '_', 'F', 'G', '_', 'L', 'I', 'G', 'H', 'T', '_', 'G', 'R', 'E', 'E', 'N']);
    reveal_strlit("FF_COLOR_FG_LIGHT_YELLOW");
    assert("FF_COLOR_FG_LIGHT_YELLOW"@ =~= seq!['F', 'F', '_', 'C', 'O', 'L', 'O', 'R', '_', 'F', 'G', '_', 'L', 'I', 'G', 'H', 'T', '_', 'Y', 'E', 'L', 'L', 'O', 'W']);
    reveal_strlit("FF_COLOR_FG_LIGHT_BLUE");
    assert("FF_COLOR_FG_LIGHT_BLUE"@ =~= seq!['F', 'F', '_', 'C', 'O', 'L', 'O', 'R', '_', 'F', 'G', '_', 'L', 'I', 'G', 'H', 'T', '_', 'B', 'L', 'U', 'E']);
    reveal_strlit("FF_COLOR_FG_LIGHT_MAGENTA");
    assert("FF_COLOR_FG_LIGHT_MAGENTA"@ =~= seq!['F', 'F', '_', 'C', 'O', 'L', 'O', 'R', '_', 'F', 'G', '_', 'L', 'I', 'G', 'H', 'T', '_', 'M', 'A', 'G', 'E', 'N', 'T', 'A']);
    reveal_strlit("FF_COLOR_FG_LIGHT_CYAN");
    assert("FF_COLOR_FG_LIGHT_CYAN"@ =~= seq!['F', 'F', '_', 'C', 'O', 'L', 'O', 'R', '_', 'F', 'G', '_', 'L', 'I', 'G', 'H', 'T', '_', 'C', 'Y', 'A', 'N']);
    reveal_strlit("FF_COLOR_FG_LIGHT_WHITE");
    assert("FF_COLOR_FG_LIGHT_WHITE"@ =~= seq!['F', 'F', '_', 'C', 'O', 'L', 'O', 'R', '_', 'F', 'G', '_', 'L', 'I', 'G', 'H', 'T', '_', 'W', 'H', 'I', 'T', 'E']);
    reveal_strlit("FF_COLOR_FG_DEFAULT");
    assert("FF_COLOR_FG_DEFAULT"@ =~= seq!['F', 'F', '_', 'C', 'O', 'L', 'O', 'R', '_', 'F', 'G', '_', 'D', 'E', 'F', 'A', 'U', 'L', 'T']);
    reveal_strlit("\x1b[30m");
    assert("\x1b[30m"@ =~= seq!['\x1b', '[', '3', '0', 'm']);
    reveal_strlit("\x1b[31m");
    assert("\x1b[31m"@ =~= seq!['\x1b', '[', '3', '1', 'm']);
    reveal_strlit("\x1b[32m");
    assert("\x1b[32m"@ =~= seq!['\x1b', '[', '3', '2', 'm']);
    reveal_strlit("\x1b[33m");
    assert("\x1b[33m"@ =~= seq!['\x1b', '[', '3', '3', 'm']);
    reveal_strlit("\x1b[34m");
    assert("\x1b[34m"@ =~= seq!['\x1b', '[', '3', '4', 'm']);
    reveal_strlit("\x1b[35m");
    assert("\x1b[35m"@ =~= seq!['\x1b', '[', '3', '5', 'm']);
    reveal_strlit("\x1b[36m");
    assert("\x1b[36m"@ =~= seq!['\x1b', '[', '3', '6', 'm']);
    reveal_strlit("\x1b[37m");
    assert("\x1b[37m"@ =~= seq!['\x1b', '[', '3', '7', 'm']);
    reveal_strlit("\x1b[90m");
    assert("\x1b[90m"@ =~= seq!['\x1b', '[', '9', '0', 'm']);
    reveal_strlit("\x1b[91m");
    assert("\x1b[91m"@ =~= seq!['\x1b', '[', '9', '1', 'm']);
    reveal_strlit("\x1b[92m");
    assert("\x1b[92m"@ =~= seq!['\x1b', '[', '9', '2', 'm']);
    reveal_strlit("\x1b[93m");
    assert("\x1b[93m"@ =~= seq!['\x1b', '[', '9', '3', 'm']);
    reveal_strlit("\x1b[94m");
    assert("\x1b[94m"@ =~= seq!['\x1b', '[', '9', '4', 'm']);
    reveal_strlit("\x1b[95m");
    assert("\x1b[95m"@ =~= seq!['\x1b', '[', '9', '5', 'm']);
    reveal_strlit("\x1b[96m");
    assert("\x1b[96m"@ =~= seq!['\x1b', '[', '9', '6', 'm']);
    reveal_strlit("\x1b[97m");
    assert("\x1b[97m"@ =~= seq!['\x1b', '[', '9', '7', 'm']);
    reveal_strlit("\x1b[39m");
    assert("\x1b[39m"@ =~= seq!['\x1b', '[', '3', '9', 'm']);
    reveal_strlit("BLACK");
    assert("BLACK"@ =~= seq!['B', 'L', 'A', 'C', 'K']);
    reveal_strlit("RED");
    assert("RED"@ =~= seq!['R', 'E', 'D']);
    reveal_strlit("GREEN");
    assert("GREEN"@ =~= seq!['G', 'R', 'E', 'E', 'N']);
    reveal_strlit("YELLOW");
    assert("YELLOW"@ =~= seq!['Y', 'E', 'L', 'L', 'O', 'W']);
    reveal_strlit("BLUE");
    assert("BLUE"@ =~= seq!['B', 'L', 'U', 'E']);
    reveal_strlit("MAGENTA");
    assert("MAGENTA"@ =~= seq!['M', 'A', 'G', 'E', 'N', 'T', 'A']);
    reveal_strlit("CYAN");
    assert("CYAN"@ =~= seq!['C', 'Y', 'A', 'N']);
    reveal_strlit("WHITE");
    assert("WHITE"@ =~= seq!['W', 'H', 'I', 'T', 'E']);
    reveal_strlit("FF_COLOR_FG_");
    assert("FF_COLOR_FG_"@ =~= seq!['F', 'F', '_', 'C', 'O', 'L', 'O', 'R', '_', 'F', 'G', '_']);
    reveal_strlit("FF_COLOR_FG_LIGHT_");
    assert("FF_COLOR_FG_LIGHT_"@ =~= seq!['F', 'F', '_', 'C', 'O', 'L', 'O', 'R', '_', 'F', 'G', '_', 'L', 'I', 'G', 'H', 'T', '_']);
    reveal_strlit("\x1b[");
    reveal_strlit("m");
    assert("\x1b["@ =~= seq!['\x1b', '[']);
    assert("m"@ =~= seq!['m']);
    lemma_two_digits((30 + c) as nat);
    lemma_two_digits((90 + c) as nat);
    lemma_two_digits(39);
    assert(fg_escape((30 + c) as nat) =~= seq!['\x1b', '[', '3', crate::text::digit_char(c), 'm']);
    assert(fg_escape((90 + c) as nat) =~= seq!['\x1b', '[', '9', crate::text::digit_char(c), 'm']);
    assert(fg_escape(39) =~= seq!['\x1b', '[', '3', '9', 'm']);
    if c == 0 {
        assert("FF_COLOR_FG_"@ + ansi_color_word(c) =~= "FF_COLOR_FG_BLACK"@);
        assert("FF_COLOR_FG_LIGHT_"@ + ansi_color_word(c) =~= "FF_COLOR_FG_LIGHT_BLACK"@);
        assert(crate::text::digit_char(c) == '0');
    } else if c == 1 {
        assert("FF_COLOR_FG_"@ + ansi_color_word(c) =~= "FF_COLOR_FG_RED"@);
        assert("FF_COLOR_FG_LIGHT_"@ + ansi_color_word(c) =~= "FF_COLOR_FG_LIGHT_RED"@);
        assert(crate::text::digit_char(c) == '1');
    } else if c == 2 {
        assert("FF_COLOR_FG_"@ + ansi_color_word(c) =~= "FF_COLOR_FG_GREEN"@);
        assert("FF_COLOR_FG_LIGHT_"@ + ansi_color_word(c) =~= "FF_COLOR_FG_LIGHT_GREEN"@);
        assert(crate::text::digit_char(c) == '2');
    } else if c == 3 {
        assert("FF_COLOR_FG_"@ + ansi_color_word(c) =~= "FF_COLOR_FG_YELLOW"@);
        assert("FF_COLOR_FG_LIGHT_"@ + ansi_color_word(c) =~= "FF_COLOR_FG_LIGHT_YELLOW"@);
        assert(crate::text::digit_char(c) == '3');
    } else if c == 4 {
        assert("FF_COLOR_FG_"@ + ansi_color_word(c) =~= "FF_COLOR_FG_BLUE"@);
        assert("FF_COLOR_FG_LIGHT_"@ + ansi_color_word(c) =~= "FF_COLOR_FG_LIGHT_BLUE"@);
        assert(crate::text::digit_char(c) == '4');
    } else if c == 5 {
        assert("FF_COLOR_FG_"@ + ansi_color_word(c) =~= "FF_COLOR_FG_MAGENTA"@);
        assert("FF_COLOR_FG_LIGHT_"@ + ansi_color_word(c) =~= "FF_COLOR_FG_LIGHT_MAGENTA"@);
        assert(crate::text::digit_char(c) == '5');
    } else if c == 6 {
        assert("FF_COLOR_FG_"@ + ansi_color_word(c) =~= "FF_COLOR_FG_CYAN"@);
        assert("FF_COLOR_FG_LIGHT_"@ + ansi_color_word(c) =~= "FF_COLOR_FG_LIGHT_CYAN"@);
        assert(crate::text::digit_char(c) == '6');
    } else if c == 7 {
        assert("FF_COLOR_FG_"@ + ansi_color_word(c) =~= "FF_COLOR_FG_WHITE"@);
        assert("FF_COLOR_FG_LIGHT_"@ + ansi_color_word(c) =~= "FF_COLOR_FG_LIGHT_WHITE"@);
        assert(crate::text::digit_char(c) == '7');
    }
}

/// The text between the first two double quotes, when there are two.
pub open spec fn quoted_code(clean: Seq<char>) -> Option<Seq<char>> {
    match find_char(clean, '"') {
        Some(s) => match find_char(clean.skip(s + 1), '"') {
            Some(e) => Some(clean.subrange(s + 1, s + 1 + e)),
            None => None,
        },
        None => None,
    }
}

/// A colour code: one or more digits and semicolons.
pub open spec fn is_color_code(c: Seq<char>) -> bool {
    c.len() > 0 && forall|j: int| 0 <= j < c.len() ==> is_param_char(#[trigger] c[j])
}

/// The colour code in quotes in a colour token, when the quotes hold one.
pub open spec fn token_code(unpadded: Seq<char>) -> Option<Seq<char>> {
    match quoted_code(unpadded) {
        Some(c) => if is_color_code(c) {
            Some(c)
        } else {
            None
        },
        None => None,
    }
}

/// The escape sequence that a fastfetch colour token stands for: a named colour, a
/// 256-colour or RGB code in quotes (as in `FF_COLOR_FG_256 "33"`), else white.
pub open spec fn ff_color(token: Seq<char>) -> Seq<char> {
    let clean = clean_color_token(token);
    let code = token_code(unpadded_color_token(token));
    match named_ff_color(clean) {
        Some(c) => c,
        None => if contains(clean, "FF_COLOR_FG_256"@) && code is Some {
            "\x1b[38;5;"@ + code->0 + "m"@
        } else if contains(clean, "FF_COLOR_FG_RGB"@) && code is Some {
            "\x1b[38;2;"@ + code->0 + "m"@
        } else {
            "\x1b[37m"@
        },
    }
}

fn clean_token_exec(token: &Vec<char>) -> (r: (Vec<char>, Vec<char>))
    ensures
        r.0@ == unpadded_color_token(token@),
        r.1@ == clean_color_token(token@),
{
    let a = trim_ws(token);
    let b = trim_class(&a, &CharClass::Exactly(','), false, true);
    let c = trim_class(&b, &CharClass::Exactly('"'), true, true);
    let d = trim_ws(&c);
    (b, d)
}

fn named_ff_color_exec(clean: &Vec<char>) -> (r: Option<String>)
    ensures
        r matches Some(s) ==> named_ff_color(clean@) == Some(s@),
        r is None ==> named_ff_color(clean@) is None,
{
    if same_chars(clean, "FF_COLOR_FG_BLACK") {
        Some(String::from_str("\x1b[30m"))
    } else if same_chars(clean, "FF_COLOR_FG_RED") {
        Some(String::from_str("\x1b[31m"))
    } else if same_chars(clean, "FF_COLOR_FG_GREEN") {
        Some(String::from_str("\x1b[32m"))
    } else if same_chars(clean, "FF_COLOR_FG_YELLOW") {
        Some(String::from_str("\x1b[33m"))
    } else if same_chars(clean, "FF_COLOR_FG_BLUE") {
        Some(String::from_str("\x1b[34m"))
    } else if same_chars(clean, "FF_COLOR_FG_MAGENTA") {
        Some(String::from_str("\x1b[35m"))
    } else if same_chars(clean, "FF_COLOR_FG_CYAN") {
        Some(String::from_str("\x1b[36m"))
    } else if same_chars(clean, "FF_COLOR_FG_WHITE") {
        Some(String::from_str("\x1b[37m"))
    } else if same_chars(clean, "FF_COLOR_FG_LIGHT_BLACK") {
        Some(String::from_str("\x1b[90m"))
    } else if same_chars(clean, "FF_COLOR_FG_LIGHT_RED") {
        Some(String::from_str("\x1b[91m"))
    } else if same_chars(clean, "FF_COLOR_FG_LIGHT_GREEN") {
        Some(String::from_str("\x1b[92m"))
    } else if same_chars(clean, "FF_COLOR_FG_LIGHT_YELLOW") {
        Some(String::from_str("\x1b[93m"))
    } else if same_chars(clean, "FF_COLOR_FG_LIGHT_BLUE") {
        Some(String::from_str("\x1b[94m"))
    } else if same_chars(clean, "FF_COLOR_FG_LIGHT_MAGENTA") {
        Some(String::from_str("\x1b[95m"))
    } else if same_chars(clean, "FF_COLOR_FG_LIGHT_CYAN") {
        Some(String::from_str("\x1b[96m"))
    } else if same_chars(clean, "FF_COLOR_FG_LIGHT_WHITE") {
        Some(String::from_str("\x1b[97m"))
    } else if same_chars(clean, "FF_COLOR_FG_DEFAULT") {
        Some(String::from_str("\x1b[39m"))
    } else {
        None
    }
}

fn quoted_code_exec(clean: &Vec<char>) -> (r: Option<Vec<char>>)
    ensures
        r matches Some(c) ==> quoted_code(clean@) == Some(c@),
        r is None ==> quoted_code(clean@) is None,
{
    match find_char_exec(clean, '"') {
        Some(s) => {
            let n = clean.len();
            let rest = copy_range(clean, s + 1, n);
            assert(rest@ =~= clean@.skip(s + 1));
            match find_char_exec(&rest, '"') {
                Some(e) => Some(copy_range(clean, s + 1, s + 1 + e)),
                None => None,
            }
        },
        None => None,
    }
}

fn token_code_exec(unpadded: &Vec<char>) -> (r: Option<Vec<char>>)
    ensures
        r matches Some(c) ==> token_code(unpadded@) == Some(c@),
        r is None ==> token_code(unpadded@) is None,
{
    match quoted_code_exec(unpadded) {
        Some(c) => {
            let ghost code = c@;
            assert(quoted_code(unpadded@) == Some(code));
            let n = c.len();
            let mut i: usize = 0;
            while i < n
                invariant
                    n == c@.len(),
                    i <= n,
                    code == c@,
                    quoted_code(unpadded@) == Some(code),
                    forall|j: int| 0 <= j < i ==> is_param_char(#[trigger] c@[j]),
                decreases n - i,
            {
                let ch = c[i];
                if !(('0' <= ch && ch <= '9') || ch == ';') {
                    assert(!is_param_char(c@[i as int]));
                    assert(!is_color_code(code));
                    return None;
                }
                i = i + 1;
            }
            if n == 0 {
                None
            } else {
                Some(c)
            }
        },
        None => None,
    }
}

/// The escape sequence that a colour token of fastfetch's logo table stands for.
pub fn parse_ff_color(color_token: &str) -> (r: String)
    ensures
        r@ == ff_color(color_token@),
{
    let token = chars_of(color_token);
    let (unpadded, clean) = clean_token_exec(&token);
    match named_ff_color_exec(&clean) {
        Some(code) => code,
        None => {
            let q = token_code_exec(&unpadded);
            if contains_exec(&clean, &chars_of("FF_COLOR_FG_256")) {
                if let Some(code) = &q {
                    let mut r = String::from_str("\x1b[38;5;");
                    push_chars(&mut r, code);
                    r.append("m");
                    return r;
                }
            }
            if contains_exec(&clean, &chars_of("FF_COLOR_FG_RGB")) {
                if let Some(code) = &q {
                    let mut r = String::from_str("\x1b[38;2;");
                    push_chars(&mut r, code);
                    r.append("m");
                    return r;
                }
            }
            String::from_str("\x1b[37m")
        },
    }
}

/// The views of a vector of strings.
pub open spec fn strs(v: Seq<String>) -> Seq<Seq<char>> {
    Seq::new(v.len(), |i: int| v[i]@)
}

/// The colours of the logos of one or more distributions.
pub struct LogoEntry {
    pub name: String,
    pub colors: Vec<String>,
}

/// Logo colours by lowercase distribution name. Entries are kept in insertion order and a
/// later entry for a name stands in place of an earlier one.
pub struct LogoTable {
    pub entries: Vec<LogoEntry>,
}

/// The map that the entries describe, a later entry replacing an earlier one.
pub open spec fn entries_map(e: Seq<LogoEntry>) -> Map<Seq<char>, Seq<Seq<char>>>
    decreases e.len(),
{
    if e.len() == 0 {
        Map::empty()
    } else {
        entries_map(e.drop_last()).insert(e.last().name@, strs(e.last().colors@))
    }
}

impl View for LogoTable {
    type V = Map<Seq<char>, Seq<Seq<char>>>;

    open spec fn view(&self) -> Map<Seq<char>, Seq<Seq<char>>> {
        entries_map(self.entries@)
    }
}

fn clone_strings(v: &Vec<String>) -> (r: Vec<String>)
    ensures
        strs(r@) == strs(v@),
{
    let mut r: Vec<String> = Vec::new();
    let n = v.len();
    for i in 0..n
        invariant
            n == v@.len(),
            r@.len() == i,
            forall|j: int| 0 <= j < i ==> r@[j]@ == v@[j]@,
    {
        r.push(v[i].clone());
    }
    assert(strs(r@) =~= strs(v@));
    r
}

impl LogoTable {
    pub fn new() -> (t: LogoTable)
        ensures
            t@ == Map::<Seq<char>, Seq<Seq<char>>>::empty(),
    {
        LogoTable { entries: Vec::new() }
    }

    /// Sets the colours of one name.
    pub fn insert(&mut self, name: &Vec<char>, colors: &Vec<String>)
        ensures
            final(self)@ == old(self)@.insert(name@, strs(colors@)),
    {
        let entry = LogoEntry { name: string_of(name), colors: clone_strings(colors) };
        let ghost old_entries = self.entries@;
        self.entries.push(entry);
        assert(self.entries@.drop_last() =~= old_entries);
    }

    /// The colours of a name, if the table has it.
    pub fn get(&self, name: &str) -> (r: Option<Vec<String>>)
        ensures
            r matches Some(c) ==> self@.contains_key(name@) && strs(c@) == self@[name@],
            r is None ==> !self@.contains_key(name@),
    {
        let key = chars_of(name);
        let mut i = self.entries.len();
        assert(self.entries@.take(i as int) =~= self.entries@);
        while i > 0
            invariant
                i <= self.entries@.len(),
                key@ == name@,
                entries_map(self.entries@).contains_key(key@) == entries_map(
                    self.entries@.take(i as int),
                ).contains_key(key@),
                entries_map(self.entries@.take(i as int)).contains_key(key@) ==> entries_map(
                    self.entries@,
                )[key@] == entries_map(self.entries@.take(i as int))[key@],
            decreases i,
        {
            let e = &self.entries[i - 1];
            let ek = chars_of(e.name.as_str());
            assert(self.entries@.take(i - 1) =~= self.entries@.take(i as int).drop_last());
            assert(self.entries@.take(i as int).last() == self.entries@[i - 1]);
            if ek.len() == key.len() && crate::text::matches_at_exec(&ek, &key, 0) {
                assert(ek@.subrange(0, ek@.len() as int) =~= ek@);
                return Some(clone_strings(&e.colors));
            }
            assert(ek@ != key@) by {
                if ek@ == key@ {
                    assert(ek@.subrange(0, ek@.len() as int) =~= ek@);
                }
            }
            i = i - 1;
        }
        assert(entries_map(self.entries@.take(0)) == Map::<Seq<char>, Seq<Seq<char>>>::empty());
        None
    }
}

/// One name of a `.names = { ... }` list: unquoted and lowercase.
pub open spec fn logo_name_of(part: Seq<char>) -> Seq<char> {
    lower_text(
        trim_both(
            trim(trim_both(trim(part), CharClass::Exactly('}'))),
            CharClass::Exactly('"'),
        ),
    )
}

/// The non-empty names among comma-separated pieces.
pub open spec fn names_in(parts: Seq<Seq<char>>) -> Seq<Seq<char>>
    decreases parts.len(),
{
    if parts.len() == 0 {
        seq![]
    } else {
        let n = logo_name_of(parts.last());
        names_in(parts.drop_last()) + if n.len() > 0 {
            seq![n]
        } else {
            seq![]
        }
    }
}

/// A colour piece of a `.colors = { ... }` line, without spaces and braces.
pub open spec fn color_piece(part: Seq<char>) -> Seq<char> {
    trim(trim_both(trim(part), CharClass::Exactly('}')))
}

/// A piece that names a colour: not empty and not a comment.
pub open spec fn is_color_entry(c: Seq<char>) -> bool {
    c.len() > 0 && !starts_with(c, "//"@)
}

/// The colours among comma-separated pieces.
pub open spec fn colors_in(parts: Seq<Seq<char>>) -> Seq<Seq<char>>
    decreases parts.len(),
{
    if parts.len() == 0 {
        seq![]
    } else {
        let c = color_piece(parts.last());
        colors_in(parts.drop_last()) + if is_color_entry(c) {
            seq![ff_color(c)]
        } else {
            seq![]
        }
    }
}

/// Every name given the same colours.
pub open spec fn assign_names(
    table: Map<Seq<char>, Seq<Seq<char>>>,
    names: Seq<Seq<char>>,
    colors: Seq<Seq<char>>,
) -> Map<Seq<char>, Seq<Seq<char>>>
    decreases names.len(),
{
    if names.len() == 0 {
        table
    } else {
        assign_names(table, names.drop_last(), colors).insert(names.last(), colors)
    }
}

/// Where the scan of the logo table stands after some lines.
pub struct ScanState {
    pub names: Seq<Seq<char>>,
    pub colors: Seq<Seq<char>>,
    pub in_names: bool,
    pub in_colors: bool,
    pub table: Map<Seq<char>, Seq<Seq<char>>>,
}

pub open spec fn scan_start() -> ScanState {
    ScanState {
        names: seq![],
        colors: seq![],
        in_names: false,
        in_colors: false,
        table: Map::empty(),
    }
}

/// The table once the current colour list is closed: every current name gets the colours.
pub open spec fn close_colors(st: ScanState, colors: Seq<Seq<char>>) -> ScanState {
    ScanState {
        colors: colors,
        in_colors: false,
        table: if st.names.len() > 0 {
            assign_names(st.table, st.names, colors)
        } else {
            st.table
        },
        ..st
    }
}

/// One line of the logo table: a `.names` list starts a new logo, a `.colors` list gives the
/// colours of the current names; both may run over several lines up to a closing brace.
pub open spec fn scan_step(st: ScanState, raw: Seq<char>) -> ScanState {
    let l = trim(raw);
    let closes = contains(l, seq!['}']);
    if starts_with(l, ".names"@) {
        ScanState {
            names: match find_char(l, '{') {
                Some(b) => names_in(split_char(l.skip(b + 1), ',')),
                None => seq![],
            },
            colors: seq![],
            in_names: !closes,
            ..st
        }
    } else if st.in_names {
        ScanState { names: st.names + names_in(split_char(l, ',')), in_names: !closes, ..st }
    } else if starts_with(l, ".colors"@) {
        let colors = st.colors + match find_char(l, '{') {
            Some(b) => colors_in(split_char(l.skip(b + 1), ',')),
            None => seq![],
        };
        if closes {
            close_colors(st, colors)
        } else {
            ScanState { colors: colors, in_colors: true, ..st }
        }
    } else if st.in_colors {
        if closes {
            let c = trim(trim_both(l, CharClass::Exactly('}')));
            close_colors(
                st,
                if is_color_entry(c) {
                    st.colors.push(ff_color(c))
                } else {
                    st.colors
                },
            )
        } else {
            let c = trim_end(l, CharClass::Exactly(','));
            ScanState {
                colors: if is_color_entry(c) {
                    st.colors.push(ff_color(c))
                } else {
                    st.colors
                },
                ..st
            }
        }
    } else {
        st
    }
}

pub open spec fn scan_lines(ls: Seq<Seq<char>>) -> ScanState
    decreases ls.len(),
{
    if ls.len() == 0 {
        scan_start()
    } else {
        scan_step(scan_lines(ls.drop_last()), ls.last())
    }
}

/// The logo colours that fastfetch's logo table source assigns to each distribution name.
pub open spec fn builtin_logo_table(content: Seq<char>) -> Map<Seq<char>, Seq<Seq<char>>> {
    scan_lines(lines(content)).table
}

fn names_in_exec(parts: &Vec<Vec<char>>) -> (r: Vec<Vec<char>>)
    ensures
        views(r@) == names_in(views(parts@)),
{
    let mut r: Vec<Vec<char>> = Vec::new();
    let n = parts.len();
    for k in 0..n
        invariant
            n == parts@.len(),
            views(r@) == names_in(views(parts@).take(k as int)),
    {
        let p = &parts[k];
        let a = trim_ws(p);
        let b = trim_class(&a, &CharClass::Exactly('}'), true, true);
        let c = trim_ws(&b);
        let d = trim_class(&c, &CharClass::Exactly('"'), true, true);
        let name = lowercase_chars(&d);
        let ghost old_r = views(r@);
        assert(views(parts@).take(k + 1).drop_last() =~= views(parts@).take(k as int));
        assert(views(parts@).take(k + 1).last() == p@);
        if name.len() > 0 {
            r.push(name);
            assert(views(r@) =~= old_r + seq![name@]);
        } else {
            assert(views(r@) =~= old_r + Seq::<Seq<char>>::empty());
        }
    }
    assert(views(parts@).take(n as int) =~= views(parts@));
    r
}

fn colors_in_exec(parts: &Vec<Vec<char>>, acc: &mut Vec<String>)
    ensures
        strs(final(acc)@) == strs(old(acc)@) + colors_in(views(parts@)),
{
    let n = parts.len();
    let ghost a0 = strs(acc@);
    for k in 0..n
        invariant
            n == parts@.len(),
            strs(acc@) == a0 + colors_in(views(parts@).take(k as int)),
    {
        let p = &parts[k];
        let a = trim_ws(p);
        let b = trim_class(&a, &CharClass::Exactly('}'), true, true);
        let c = trim_ws(&b);
        let ghost old_acc = strs(acc@);
        assert(views(parts@).take(k + 1).drop_last() =~= views(parts@).take(k as int));
        assert(views(parts@).take(k + 1).last() == p@);
        if c.len() > 0 && !starts_with_exec(&c, &chars_of("//")) {
            let s = string_of(&c);
            acc.push(parse_ff_color(s.as_str()));
            assert(strs(acc@) =~= old_acc + seq![ff_color(c@)]);
        } else {
            assert(strs(acc@) =~= old_acc + Seq::<Seq<char>>::empty());
        }
    }
    assert(views(parts@).take(n as int) =~= views(parts@));
}

fn push_color_entry(c: &Vec<char>, acc: &mut Vec<String>)
    ensures
        strs(final(acc)@) == if is_color_entry(c@) {
            strs(old(acc)@).push(ff_color(c@))
        } else {
            strs(old(acc)@)
        },
{
    let ghost old_acc = strs(acc@);
    if c.len() > 0 && !starts_with_exec(c, &chars_of("//")) {
        let s = string_of(c);
        acc.push(parse_ff_color(s.as_str()));
        assert(strs(acc@) =~= old_acc.push(ff_color(c@)));
    } else {
        assert(strs(acc@) =~= old_acc);
    }
}

fn assign_names_exec(table: &mut LogoTable, names: &Vec<Vec<char>>, colors: &Vec<String>)
    ensures
        final(table)@ == assign_names(old(table)@, views(names@), strs(colors@)),
{
    let n = names.len();
    let ghost t0 = table@;
    for k in 0..n
        invariant
            n == names@.len(),
            table@ == assign_names(t0, views(names@).take(k as int), strs(colors@)),
    {
        table.insert(&names[k], colors);
        assert(views(names@).take(k + 1).drop_last() =~= views(names@).take(k as int));
    }
    assert(views(names@).take(n as int) =~= views(names@));
}

/// The pieces after the first `{`, split at commas; none when there is no `{`.
fn pieces_after_brace(l: &Vec<char>) -> (r: Vec<Vec<char>>)
    ensures
        views(r@) == match find_char(l@, '{') {
            Some(b) => split_char(l@.skip(b + 1), ','),
            None => seq![],
        },
{
    match find_char_exec(l, '{') {
        Some(b) => {
            let n = l.len();
            let rest = copy_range(l, b + 1, n);
            assert(rest@ =~= l@.skip(b + 1));
            split_char_exec(&rest, ',')
        },
        None => {
            let r: Vec<Vec<char>> = Vec::new();
            assert(views(r@) =~= seq![]);
            r
        },
    }
}

/// The executable scan state; `scan_view` gives its meaning.
struct Scanner {
    names: Vec<Vec<char>>,
    colors: Vec<String>,
    in_names: bool,
    in_colors: bool,
    table: LogoTable,
}

spec fn scan_view(s: Scanner) -> ScanState {
    ScanState {
        names: views(s.names@),
        colors: strs(s.colors@),
        in_names: s.in_names,
        in_colors: s.in_colors,
        table: s.table@,
    }
}

fn scan_close(s: &mut Scanner)
    ensures
        scan_view(*final(s)) == close_colors(scan_view(*old(s)), strs(old(s).colors@)),
{
    s.in_colors = false;
    if s.names.len() > 0 {
        assign_names_exec(&mut s.table, &s.names, &s.colors);
    }
}

fn scan_step_exec(s: &mut Scanner, raw: &Vec<char>)
    ensures
        scan_view(*final(s)) == scan_step(scan_view(*old(s)), raw@),
{
    let l = trim_ws(raw);
    let closes = has_char(&l, '}');
    if starts_with_exec(&l, &chars_of(".names")) {
        let pieces = pieces_after_brace(&l);
        let ghost p = views(pieces@);
        s.names = names_in_exec(&pieces);
        s.colors = Vec::new();
        s.in_names = !closes;
        assert(strs(s.colors@) =~= seq![]);
    } else if s.in_names {
        let pieces = split_char_exec(&l, ',');
        let mut more = names_in_exec(&pieces);
        let ghost old_names = views(s.names@);
        s.names.append(&mut more);
        assert(views(s.names@) =~= old_names + names_in(split_char(l@, ',')));
        s.in_names = !closes;
    } else if starts_with_exec(&l, &chars_of(".colors")) {
        let pieces = pieces_after_brace(&l);
        colors_in_exec(&pieces, &mut s.colors);
        if closes {
            scan_close(s);
        } else {
            s.in_colors = true;
        }
    } else if s.in_colors {
        if closes {
            let a = trim_class(&l, &CharClass::Exactly('}'), true, true);
            let c = trim_ws(&a);
            push_color_entry(&c, &mut s.colors);
            scan_close(s);
        } else {
            let c = trim_class(&l, &CharClass::Exactly(','), false, true);
            push_color_entry(&c, &mut s.colors);
        }
    }
}

/// Reads fastfetch's logo table source: for every logo, the colours of each of its names.
pub fn parse_builtin_c(content: &str) -> (t: LogoTable)
    ensures
        t@ == builtin_logo_table(content@),
{
    let text = chars_of(content);
    let ls = lines_exec(&text);
    let mut s = Scanner {
        names: Vec::new(),
        colors: Vec::new(),
        in_names: false,
        in_colors: false,
        table: LogoTable::new(),
    };
    assert(views(s.names@) =~= seq![]);
    assert(strs(s.colors@) =~= seq![]);
    assert(scan_view(s) == scan_start());
    let n = ls.len();
    for i in 0..n
        invariant
            n == ls@.len(),
            scan_view(s) == scan_lines(views(ls@).take(i as int)),
    {
        scan_step_exec(&mut s, &ls[i]);
        assert(views(ls@).take(i + 1).drop_last() =~= views(ls@).take(i as int));
    }
    assert(views(ls@).take(n as int) =~= views(ls@));
    s.table
}

/// The four patterns that the width count removes, in the order it removes them.
pub enum WidthPattern {
    /// ANSI colour escapes: `\x1b\[[0-9;]*m`.
    Ansi,
    /// Braced placeholders: `\$\{[0-9]+\}`.
    Braced,
    /// Plain placeholders: `\$[0-9]`.
    Simple,
    /// Resets: `\$%(?:\{\})?`.
    Reset,
}

/// The regular expression of each width pattern.
pub open spec fn pattern_source(p: WidthPattern) -> Seq<char> {
    match p {
        WidthPattern::Ansi => r"\x1b\[[0-9;]*m"@,
        WidthPattern::Braced => r"\$\{[0-9]+\}"@,
        WidthPattern::Simple => r"\$[0-9]"@,
        WidthPattern::Reset => r"\$%(?:\{\})?"@,
    }
}

pub open spec fn is_digit_char(c: char) -> bool {
    '0' <= c && c <= '9'
}

pub open spec fn is_param_char(c: char) -> bool {
    is_digit_char(c) || c == ';'
}

/// The first index at or after `k` that holds no escape parameter (digit or `;`).
pub open spec fn param_run_end(s: Seq<char>, k: int) -> int
    decreases s.len() - k,
{
    if 0 <= k < s.len() && is_param_char(s[k]) {
        param_run_end(s, k + 1)
    } else {
        k
    }
}

/// The first index at or after `k` that holds no digit.
pub open spec fn digit_run_end(s: Seq<char>, k: int) -> int
    decreases s.len() - k,
{
    if 0 <= k < s.len() && is_digit_char(s[k]) {
        digit_run_end(s, k + 1)
    } else {
        k
    }
}

/// The length of the match of a pattern that starts at `i`, 0 when none starts there. Each
/// pattern has at most one match at a given start; the reset pattern takes `{}` when present.
pub open spec fn match_len(p: WidthPattern, s: Seq<char>, i: int) -> int {
    if i < 0 || i + 1 >= s.len() {
        0
    } else {
        match p {
            WidthPattern::Ansi => if s[i] == '\x1b' && s[i + 1] == '[' && param_run_end(s, i + 2)
                < s.len() && s[param_run_end(s, i + 2)] == 'm' {
                param_run_end(s, i + 2) + 1 - i
            } else {
                0
            },
            WidthPattern::Braced => if s[i] == '$' && s[i + 1] == '{' && digit_run_end(s, i + 2) > i
                + 2 && digit_run_end(s, i + 2) < s.len() && s[digit_run_end(s, i + 2)] == '}' {
                digit_run_end(s, i + 2) + 1 - i
            } else {
                0
            },
            WidthPattern::Simple => if s[i] == '$' && is_digit_char(s[i + 1]) {
                2
            } else {
                0
            },
            WidthPattern::Reset => if s[i] == '$' && s[i + 1] == '%' {
                if i + 3 < s.len() && s[i + 2] == '{' && s[i + 3] == '}' {
                    4
                } else {
                    2
                }
            } else {
                0
            },
        }
    }
}

/// `s[i..]` with the leftmost non-overlapping matches of the pattern removed.
pub open spec fn erase_from(p: WidthPattern, s: Seq<char>, i: int) -> Seq<char>
    decreases s.len() - i,
{
    if i < 0 || i >= s.len() {
        seq![]
    } else if match_len(p, s, i) > 0 {
        erase_from(p, s, i + match_len(p, s, i))
    } else {
        seq![s[i]] + erase_from(p, s, i + 1)
    }
}

/// The text with every match of the pattern removed.
pub open spec fn erase_all(p: WidthPattern, s: Seq<char>) -> Seq<char> {
    erase_from(p, s, 0)
}

/// Whether the regular expression is one of the four width patterns.
pub open spec fn is_width_pattern(source: Seq<char>) -> bool {
    ||| source == pattern_source(WidthPattern::Ansi)
    ||| source == pattern_source(WidthPattern::Braced)
    ||| source == pattern_source(WidthPattern::Simple)
    ||| source == pattern_source(WidthPattern::Reset)
}

/// The width pattern that a regular expression is (meaningful for the four of them).
pub open spec fn width_pattern_of(source: Seq<char>) -> WidthPattern {
    if source == pattern_source(WidthPattern::Ansi) {
        WidthPattern::Ansi
    } else if source == pattern_source(WidthPattern::Braced) {
        WidthPattern::Braced
    } else if source == pattern_source(WidthPattern::Simple) {
        WidthPattern::Simple
    } else {
        WidthPattern::Reset
    }
}

/// `regex::Regex::new(pattern)` and then `replace_all(text, "")` on the compiled pattern.
/// Claimed for the four width patterns only, as the regex syntax and the leftmost-first,
/// non-overlapping semantics of `replace_all` document them: each compiles, and the result is
/// the text with every match removed. Nothing is stated for other patterns.
#[verifier::external_body]
fn erase_regex_matches(pattern: &str, text: &str) -> (r: Option<String>)
    ensures
        is_width_pattern(pattern@) ==> r is Some,
        r matches Some(s) ==> (is_width_pattern(pattern@) ==> s@ == erase_all(
            width_pattern_of(pattern@),
            text@,
        )),
{
    match regex::Regex::new(pattern) {
        Ok(re) => Some(re.replace_all(text, "").into_owned()),
        Err(_) => None,
    }
}

proof fn lemma_erase_len(p: WidthPattern, s: Seq<char>, i: int)
    requires
        0 <= i,
    ensures
        i <= s.len() ==> erase_from(p, s, i).len() <= s.len() - i,
        i > s.len() ==> erase_from(p, s, i).len() == 0,
    decreases s.len() - i,
{
    if i < s.len() {
        if match_len(p, s, i) > 0 {
            lemma_erase_len(p, s, i + match_len(p, s, i));
        } else {
            lemma_erase_len(p, s, i + 1);
        }
    }
}

/// What is left of a logo line once escapes, placeholders and resets are removed.
pub open spec fn visible_text(line: Seq<char>) -> Seq<char> {
    erase_all(
        WidthPattern::Reset,
        erase_all(
            WidthPattern::Simple,
            erase_all(WidthPattern::Braced, erase_all(WidthPattern::Ansi, line)),
        ),
    )
}

/// The cells a text takes on the terminal: its characters once colour escapes are removed.
pub open spec fn drawn_width(s: Seq<char>) -> nat {
    erase_all(WidthPattern::Ansi, s).len()
}

fn erase_pattern(p: &WidthPattern, text: &str) -> (r: String)
    ensures
        r@ == erase_all(*p, text@),
{
    let pattern = match p {
        WidthPattern::Ansi => r"\x1b\[[0-9;]*m",
        WidthPattern::Braced => r"\$\{[0-9]+\}",
        WidthPattern::Simple => r"\$[0-9]",
        WidthPattern::Reset => r"\$%(?:\{\})?",
    };
    proof {
        reveal_strlit(r"\x1b\[[0-9;]*m");
        reveal_strlit(r"\$\{[0-9]+\}");
        reveal_strlit(r"\$[0-9]");
        reveal_strlit(r"\$%(?:\{\})?");
    }
    proof {
        let a = pattern_source(WidthPattern::Ansi);
        let b = pattern_source(WidthPattern::Braced);
        let c = pattern_source(WidthPattern::Simple);
        let d = pattern_source(WidthPattern::Reset);
        assert(a[1] == 'x' && b[1] == '$' && c[1] == '$' && d[1] == '$');
        assert(b[2] == '\\' && c[2] == '[' && d[2] == '%');
    }
    match erase_regex_matches(pattern, text) {
        Some(s) => s,
        None => {
            proof {
                assert(false);
            }
            String::new()
        },
    }
}

/// The number of terminal cells a logo line takes: its characters once escapes,
/// placeholders and resets are removed.
pub fn get_visible_width(line: &str) -> (w: usize)
    ensures
        w == visible_text(line@).len(),
        w <= line@.len(),
{
    let step1 = erase_pattern(&WidthPattern::Ansi, line);
    let step2 = erase_pattern(&WidthPattern::Braced, step1.as_str());
    let step3 = erase_pattern(&WidthPattern::Simple, step2.as_str());
    let clean = erase_pattern(&WidthPattern::Reset, step3.as_str());
    proof {
        lemma_erase_len(WidthPattern::Ansi, line@, 0);
        lemma_erase_len(WidthPattern::Braced, step1@, 0);
        lemma_erase_len(WidthPattern::Simple, step2@, 0);
        lemma_erase_len(WidthPattern::Reset, step3@, 0);
    }
    clean.as_str().unicode_len()
}

/// The plain placeholder `$k`.
pub open spec fn placeholder(k: nat) -> Seq<char> {
    seq!['$'] + decimal(k)
}

/// The braced placeholder `${k}`.
pub open spec fn placeholder_braced(k: nat) -> Seq<char> {
    seq!['$', '{'] + decimal(k) + seq!['}']
}

/// Whether the line holds the placeholder of colour `k`, plain or braced.
pub open spec fn has_placeholder_k(line: Seq<char>, k: int) -> bool {
    contains(line, placeholder(k as nat)) || contains(line, placeholder_braced(k as nat))
}

/// Whether the line sets its own colours with a placeholder of colours 1 to 9.
pub open spec fn has_placeholder(line: Seq<char>) -> bool {
    exists|k: int| 1 <= k < 10 && #[trigger] has_placeholder_k(line, k)
}

/// The escape sequence for placeholder `idx + 1`: the logo's colour, or white past its end.
pub open spec fn color_for(colors: Seq<Seq<char>>, idx: int) -> Seq<char> {
    if 0 <= idx < colors.len() {
        colors[idx]
    } else {
        "\x1b[37m"@
    }
}

/// The line with placeholders 1 to `n` replaced, in that order, plain before braced.
pub open spec fn fill_placeholders(line: Seq<char>, colors: Seq<Seq<char>>, n: nat) -> Seq<char>
    decreases n,
{
    if n == 0 {
        line
    } else {
        let prev = fill_placeholders(line, colors, (n - 1) as nat);
        let c = color_for(colors, n - 1);
        replace(replace(prev, placeholder(n), c), placeholder_braced(n), c)
    }
}

/// The reset escape sequence.
pub open spec fn reset_code() -> Seq<char> {
    "\x1b[0m"@
}

/// A logo line with its fifteen colour placeholders and its resets replaced by escapes;
/// the long reset `$%{}` is replaced before the short one `$%`.
pub open spec fn colored_logo_line(line: Seq<char>, colors: Seq<Seq<char>>) -> Seq<char> {
    replace(
        replace(fill_placeholders(line, colors, 15), "$%{}"@, reset_code()),
        "$%"@,
        reset_code(),
    )
}

/// The logo part of a row: a line without placeholders is drawn in the fallback colour;
/// the colours are reset at its end.
pub open spec fn logo_part(line: Seq<char>, colors: Seq<Seq<char>>, fallback: Seq<char>) -> Seq<
    char,
> {
    if has_placeholder(line) {
        colored_logo_line(line, colors) + reset_code()
    } else {
        fallback + colored_logo_line(line, colors) + reset_code()
    }
}

/// `n` spaces.
pub open spec fn spaces(n: nat) -> Seq<char> {
    repeat(seq![' '], n)
}

/// One output row: the logo line (if any) padded to `pad` visible cells, then the
/// information line (if any).
pub open spec fn logo_row(
    line: Option<Seq<char>>,
    visible: nat,
    colors: Seq<Seq<char>>,
    fallback: Seq<char>,
    pad: nat,
    info: Option<Seq<char>>,
) -> Seq<char> {
    (match line {
        Some(l) => logo_part(l, colors, fallback) + if visible < pad {
            spaces((pad - visible) as nat)
        } else {
            seq![]
        },
        None => spaces(pad),
    }) + match info {
        Some(i) => i,
        None => seq![],
    }
}

fn placeholder_exec(k: u64, braced: bool) -> (r: Vec<char>)
    ensures
        r@ == if braced {
            placeholder_braced(k as nat)
        } else {
            placeholder(k as nat)
        },
{
    let mut s = String::new();
    crate::text::push_char(&mut s, '$');
    if braced {
        crate::text::push_char(&mut s, '{');
    }
    push_decimal(&mut s, k);
    if braced {
        crate::text::push_char(&mut s, '}');
    }
    let r = chars_of(s.as_str());
    if braced {
        assert(r@ =~= placeholder_braced(k as nat));
    } else {
        assert(r@ =~= placeholder(k as nat));
    }
    r
}

fn has_placeholder_exec(line: &Vec<char>) -> (b: bool)
    ensures
        b == has_placeholder(line@),
{
    let mut k: u64 = 1;
    while k < 10
        invariant
            1 <= k <= 10,
            forall|j: int| 1 <= j < k ==> !#[trigger] has_placeholder_k(line@, j),
        decreases 10 - k,
    {
        if contains_exec(line, &placeholder_exec(k, false)) || contains_exec(
            line,
            &placeholder_exec(k, true),
        ) {
            assert(has_placeholder_k(line@, k as int));
            return true;
        }
        k = k + 1;
    }
    false
}

/// The colour of placeholder `idx + 1` as characters.
fn color_for_exec(colors: &Vec<String>, idx: usize) -> (r: Vec<char>)
    ensures
        r@ == color_for(strs(colors@), idx as int),
{
    if idx < colors.len() {
        chars_of(colors[idx].as_str())
    } else {
        chars_of("\x1b[37m")
    }
}

fn colored_logo_line_exec(line: &Vec<char>, colors: &Vec<String>) -> (r: Vec<char>)
    ensures
        r@ == colored_logo_line(line@, strs(colors@)),
{
    let mut cur = copy_range(line, 0, line.len());
    assert(line@.subrange(0, line@.len() as int) =~= line@);
    let mut idx: usize = 0;
    while idx < 15
        invariant
            idx <= 15,
            cur@ == fill_placeholders(line@, strs(colors@), idx as nat),
        decreases 15 - idx,
    {
        let c = color_for_exec(colors, idx);
        let p1 = placeholder_exec((idx + 1) as u64, false);
        let p2 = placeholder_exec((idx + 1) as u64, true);
        let a = replace_exec(&cur, &p1, &c);
        cur = replace_exec(&a, &p2, &c);
        idx = idx + 1;
    }
    let reset = chars_of("\x1b[0m");
    let r1 = chars_of("$%");
    let r2 = chars_of("$%{}");
    proof {
        reveal_strlit("$%");
        reveal_strlit("$%{}");
    }
    let a = replace_exec(&cur, &r2, &reset);
    replace_exec(&a, &r1, &reset)
}

/// One output row, from the logo line and its visible width (as `get_visible_width` gives
/// it), the logo colours, the fallback colour, the padding width and the information line.
pub fn render_row(
    line: Option<&str>,
    visible: usize,
    colors: &Vec<String>,
    fallback: &str,
    pad: usize,
    info: Option<&str>,
) -> (r: String)
    ensures
        r@ == logo_row(
            match line {
                Some(l) => Some(l@),
                None => None,
            },
            visible as nat,
            strs(colors@),
            fallback@,
            pad as nat,
            match info {
                Some(i) => Some(i@),
                None => None,
            },
        ),
{
    let mut out = String::new();
    let space = chars_of(" ");
    proof {
        reveal_strlit(" ");
    }
    assert(space@ =~= seq![' ']);
    match line {
        Some(l) => {
            let lv = chars_of(l);
            let colored = colored_logo_line_exec(&lv, colors);
            if !has_placeholder_exec(&lv) {
                out.append(fallback);
            }
            push_chars(&mut out, &colored);
            out.append("\x1b[0m");
            if visible < pad {
                push_repeat(&mut out, &space, pad - visible);
            }
        },
        None => {
            push_repeat(&mut out, &space, pad);
        },
    }
    if let Some(i) = info {
        out.append(i);
    }
    proof {
        let lo = match line {
            Some(l) => Some(l@),
            None => None,
        };
        let io = match info {
            Some(i) => Some(i@),
            None => None,
        };
        assert(out@ =~= logo_row(lo, visible as nat, strs(colors@), fallback@, pad as nat, io));
    }
    out
}

/// The logo art that the program carries, one text per distribution.
pub struct LogoArts {
    pub arch: String,
    pub nixos: String,
    pub gentoo: String,
    pub manjaro: String,
    pub endeavouros: String,
}

/// The art for a lowercase distribution name, if the program carries one.
pub open spec fn embedded_art(name: Seq<char>, arts: LogoArts) -> Option<Seq<char>> {
    if name == "arch"@ {
        Some(arts.arch@)
    } else if name == "nixos"@ {
        Some(arts.nixos@)
    } else if name == "gentoo"@ {
        Some(arts.gentoo@)
    } else if name == "manjaro"@ {
        Some(arts.manjaro@)
    } else if name == "endeavouros"@ {
        Some(arts.endeavouros@)
    } else {
        None
    }
}

/// Whether the program carries a logo under this (lower-case) name.
pub open spec fn carried_logo_name(name: Seq<char>) -> bool {
    ||| name == "arch"@
    ||| name == "nixos"@
    ||| name == "gentoo"@
    ||| name == "manjaro"@
    ||| name == "endeavouros"@
}

/// Each of the five carried logos is found under its own name and gives that very art, and
/// only other names find none.
pub proof fn lemma_carried_logos_found(name: Seq<char>, arts: LogoArts)
    ensures
        name == "arch"@ ==> embedded_art(name, arts) == Some(arts.arch@),
        name == "nixos"@ ==> embedded_art(name, arts) == Some(arts.nixos@),
        name == "gentoo"@ ==> embedded_art(name, arts) == Some(arts.gentoo@),
        name == "manjaro"@ ==> embedded_art(name, arts) == Some(arts.manjaro@),
        name == "endeavouros"@ ==> embedded_art(name, arts) == Some(arts.endeavouros@),
        embedded_art(name, arts) is None <==> !carried_logo_name(name),
{
    reveal_strlit("arch");
    reveal_strlit("nixos");
    reveal_strlit("gentoo");
    reveal_strlit("manjaro");
    reveal_strlit("endeavouros");
    assert("arch"@.len() == 4);
    assert("nixos"@.len() == 5);
    assert("gentoo"@.len() == 6);
    assert("manjaro"@.len() == 7);
    assert("endeavouros"@.len() == 11);
}

/// The logo art for a distribution name, in any case.
pub fn get_embedded_ascii<'a>(distro_name: &str, arts: &'a LogoArts) -> (r: Option<&'a str>)
    ensures
        r matches Some(a) ==> embedded_art(lower_text(distro_name@), *arts) == Some(a@),
        r is None ==> embedded_art(lower_text(distro_name@), *arts) is None,
{
    let name = str_to_lowercase(distro_name);
    let v = chars_of(name.as_str());
    if same_chars(&v, "arch") {
        Some(arts.arch.as_str())
    } else if same_chars(&v, "nixos") {
        Some(arts.nixos.as_str())
    } else if same_chars(&v, "gentoo") {
        Some(arts.gentoo.as_str())
    } else if same_chars(&v, "manjaro") {
        Some(arts.manjaro.as_str())
    } else if same_chars(&v, "endeavouros") {
        Some(arts.endeavouros.as_str())
    } else {
        None
    }
}

/// The name under which the logo colours are looked up, and the art that is drawn: the
/// distribution's own, or Arch's when the program carries none for it.
pub open spec fn chosen_logo(distro_name: Seq<char>, arts: LogoArts) -> (Seq<char>, Seq<char>) {
    let name = lower_text(distro_name);
    match embedded_art(lower_text(name), arts) {
        Some(a) => (name, a),
        None => (
            "arch"@,
            match embedded_art("arch"@, arts) {
                Some(a) => a,
                None => seq![],
            },
        ),
    }
}

/// Logo lookup and logo choice ignore case: for an ASCII name, the name and its lower-case
/// form find the same art and choose the same logo (and so render the same rows).
pub proof fn lemma_logo_choice_ignores_case(distro_name: Seq<char>, arts: LogoArts)
    requires
        all_ascii(distro_name),
    ensures
        embedded_art(lower_text(distro_name), arts) == embedded_art(
            lower_text(lower_text(distro_name)),
            arts,
        ),
        chosen_logo(distro_name, arts) == chosen_logo(lower_text(distro_name), arts),
{
    lemma_lower_text_twice(distro_name);
    lemma_lower_text_twice(lower_text(distro_name));
}

/// A distribution whose art is not carried is drawn exactly as Arch is, art and colours: its
/// logo choice (the name under which colours are looked up, and the art) is Arch's, so the
/// rows `render_split` draws for it are the rows it draws for `arch` (the name is lower-cased
/// twice on its way to the lookup, as `render_split` does).
pub proof fn lemma_uncarried_drawn_as_arch(distro_name: Seq<char>, arts: LogoArts)
    requires
        !carried_logo_name(lower_text(lower_text(distro_name))),
    ensures
        chosen_logo(distro_name, arts) == chosen_logo("arch"@, arts),
        chosen_logo("arch"@, arts) == ("arch"@, arts.arch@),
{
    reveal_strlit("arch");
    assert(all_ascii("arch"@));
    assert(crate::text::ascii_lower("arch"@) =~= "arch"@);
    lemma_lower_text_twice("arch"@);
    lemma_carried_logos_found(lower_text(lower_text(distro_name)), arts);
    lemma_carried_logos_found("arch"@, arts);
}

/// The colours used when the logo table has no entry for the logo.
pub open spec fn default_logo_colors() -> Seq<Seq<char>> {
    seq!["\x1b[36m"@, "\x1b[37m"@, "\x1b[34m"@, "\x1b[35m"@, "\x1b[32m"@]
}

/// The colours of a logo: its entry in the table, else the default ones.
pub open spec fn logo_colors(table: Map<Seq<char>, Seq<Seq<char>>>, name: Seq<char>) -> Seq<
    Seq<char>,
> {
    if table.contains_key(name) {
        table[name]
    } else {
        default_logo_colors()
    }
}

/// The colour of logo lines without placeholders: the logo's first colour, else the
/// primary colour of the configuration.
pub open spec fn fallback_color(colors: Seq<Seq<char>>, primary: Seq<char>) -> Seq<char> {
    if colors.len() > 0 {
        colors[0]
    } else {
        "\x1b["@ + primary + "m"@
    }
}

/// The rows of the display: logo lines and information lines side by side, as many rows
/// as the longer of the two has lines.
pub open spec fn render_rows(
    art: Seq<Seq<char>>,
    info: Seq<Seq<char>>,
    colors: Seq<Seq<char>>,
    fallback: Seq<char>,
    pad: nat,
) -> Seq<Seq<char>> {
    Seq::new(
        if art.len() >= info.len() {
            art.len()
        } else {
            info.len()
        },
        |i: int|
            logo_row(
                if i < art.len() {
                    Some(art[i])
                } else {
                    None
                },
                visible_text(art[i]).len(),
                colors,
                fallback,
                pad,
                if i < info.len() {
                    Some(info[i])
                } else {
                    None
                },
            ),
    )
}

fn default_logo_colors_exec() -> (r: Vec<String>)
    ensures
        strs(r@) == default_logo_colors(),
{
    let mut r: Vec<String> = Vec::new();
    r.push(String::from_str("\x1b[36m"));
    r.push(String::from_str("\x1b[37m"));
    r.push(String::from_str("\x1b[34m"));
    r.push(String::from_str("\x1b[35m"));
    r.push(String::from_str("\x1b[32m"));
    assert(strs(r@) =~= default_logo_colors());
    r
}

/// The rows drawn for a distribution: the chosen logo's art with the colours the logo table
/// gives the chosen name, padded to the configured width, beside the information lines.
pub open spec fn split_rows(
    distro_name: Seq<char>,
    arts: LogoArts,
    source: Seq<char>,
    info: Seq<Seq<char>>,
    cfg: crate::config::Config,
) -> Seq<Seq<char>> {
    let (name, art) = chosen_logo(distro_name, arts);
    let colors = logo_colors(builtin_logo_table(source), name);
    render_rows(
        lines(art),
        info,
        colors,
        fallback_color(colors, cfg.display.colors.primary@),
        cfg.display.ascii_padding_right as nat,
    )
}

/// A distribution whose art is not carried is drawn exactly as Arch is: its rows are the rows
/// drawn for `arch`, which are Arch's art in the colours of the table's `arch` entry, never
/// those of the entry for the distribution's own name.
pub proof fn lemma_uncarried_rows_as_arch(
    distro_name: Seq<char>,
    arts: LogoArts,
    source: Seq<char>,
    info: Seq<Seq<char>>,
    cfg: crate::config::Config,
)
    requires
        !carried_logo_name(lower_text(lower_text(distro_name))),
    ensures
        split_rows(distro_name, arts, source, info, cfg) == split_rows(
            "arch"@,
            arts,
            source,
            info,
            cfg,
        ),
        ({
            let colors = logo_colors(builtin_logo_table(source), "arch"@);
            split_rows(distro_name, arts, source, info, cfg) == render_rows(
                lines(arts.arch@),
                info,
                colors,
                fallback_color(colors, cfg.display.colors.primary@),
                cfg.display.ascii_padding_right as nat,
            )
        }),
{
    lemma_uncarried_drawn_as_arch(distro_name, arts);
}

/// The display rows for a distribution: its logo (or Arch's) with the colours that the logo
/// table `builtin_source` gives it, padded to the configured width, beside the information
/// lines.
pub fn render_split(
    distro_name: &str,
    arts: &LogoArts,
    builtin_source: &str,
    info_lines: &Vec<String>,
    cfg: &crate::config::Config,
) -> (rows: Vec<String>)
    ensures
        strs(rows@) == split_rows(distro_name@, *arts, builtin_source@, strs(info_lines@), *cfg),
{
    let lower = str_to_lowercase(distro_name);
    let (logo_name, art): (String, &str) = match get_embedded_ascii(lower.as_str(), arts) {
        Some(a) => (lower, a),
        None => {
            let a = match get_embedded_ascii("arch", arts) {
                Some(a) => a,
                None => "",
            };
            proof {
                reveal_strlit("");
                reveal_strlit("arch");
                assert(all_ascii("arch"@));
                assert(crate::text::ascii_lower("arch"@) =~= "arch"@);
            }
            (String::from_str("arch"), a)
        },
    };
    assert(chosen_logo(distro_name@, *arts) == (logo_name@, art@));
    let art_text = chars_of(art);
    let art_lines = lines_exec(&art_text);
    let table = parse_builtin_c(builtin_source);
    let colors = match table.get(logo_name.as_str()) {
        Some(c) => c,
        None => default_logo_colors_exec(),
    };
    let fallback = if colors.len() > 0 {
        colors[0].clone()
    } else {
        let mut f = String::from_str("\x1b[");
        f.append(cfg.display.colors.primary.as_str());
        f.append("m");
        f
    };
    assert(strs(colors@) == logo_colors(builtin_logo_table(builtin_source@), logo_name@));
    assert(fallback@ == fallback_color(strs(colors@), cfg.display.colors.primary@));
    let pad = cfg.display.ascii_padding_right;
    let n_art = art_lines.len();
    let n_info = info_lines.len();
    let max_lines = if n_art >= n_info {
        n_art
    } else {
        n_info
    };
    let ghost spec_rows = render_rows(
        views(art_lines@),
        strs(info_lines@),
        strs(colors@),
        fallback@,
        pad as nat,
    );
    let mut rows: Vec<String> = Vec::new();
    for i in 0..max_lines
        invariant
            max_lines == spec_rows.len(),
            n_art == art_lines@.len(),
            n_info == info_lines@.len(),
            views(art_lines@) == lines(chosen_logo(distro_name@, *arts).1),
            strs(colors@) == logo_colors(
                builtin_logo_table(builtin_source@),
                chosen_logo(distro_name@, *arts).0,
            ),
            fallback@ == fallback_color(strs(colors@), cfg.display.colors.primary@),
            pad == cfg.display.ascii_padding_right,
            spec_rows == render_rows(
                views(art_lines@),
                strs(info_lines@),
                strs(colors@),
                fallback@,
                pad as nat,
            ),
            rows@.len() == i,
            forall|j: int| 0 <= j < i ==> rows@[j]@ == spec_rows[j],
    {
        let info: Option<&str> = if i < n_info {
            Some(info_lines[i].as_str())
        } else {
            None
        };
        let row = if i < n_art {
            let line = string_of(&art_lines[i]);
            let visible = get_visible_width(line.as_str());
            render_row(Some(line.as_str()), visible, &colors, fallback.as_str(), pad, info)
        } else {
            render_row(None, 0, &colors, fallback.as_str(), pad, info)
        };
        rows.push(row);
    }
    assert(strs(rows@) =~= spec_rows);
    rows
}

/// The spaces after a logo line of the given visible width.
pub open spec fn logo_padding(visible: nat, pad: nat) -> nat {
    if visible < pad {
        (pad - visible) as nat
    } else {
        0
    }
}

/// The information column stays aligned: on every row the logo part (or, below the logo,
/// nothing) is followed by exactly enough spaces to fill `pad` visible cells, counting the
/// logo line by its visible width, and then by the row's information line.
pub proof fn lemma_rows_aligned(
    art: Seq<Seq<char>>,
    info: Seq<Seq<char>>,
    colors: Seq<Seq<char>>,
    fallback: Seq<char>,
    pad: nat,
    i: int,
)
    requires
        0 <= i < render_rows(art, info, colors, fallback, pad).len(),
    ensures
        ({
            let row = render_rows(art, info, colors, fallback, pad)[i];
            let info_part = if i < info.len() {
                info[i]
            } else {
                seq![]
            };
            if i < art.len() {
                let vis = visible_text(art[i]).len();
                &&& row == logo_part(art[i], colors, fallback) + spaces(logo_padding(vis, pad))
                    + info_part
                &&& vis + logo_padding(vis, pad) == if vis < pad {
                    pad
                } else {
                    vis
                }
            } else {
                row == spaces(pad) + info_part
            }
        }),
        spaces(pad).len() == pad,
{
    crate::text::lemma_repeat_len(seq![' '], pad);
    assert(seq![' '].len() == 1);
    assert(pad * 1 == pad);
    if i < art.len() {
        let vis = visible_text(art[i]).len();
        assert(spaces(logo_padding(vis, pad)) == if vis < pad {
            spaces((pad - vis) as nat)
        } else {
            seq![]
        });
    }
}

/// A name given colours is then found with exactly those colours.
pub proof fn lemma_table_insert_get(
    t: Map<Seq<char>, Seq<Seq<char>>>,
    name: Seq<char>,
    colors: Seq<Seq<char>>,
)
    ensures
        t.insert(name, colors).contains_key(name),
        t.insert(name, colors)[name] == colors,
{
}

/// The reset marker `$%` of logo lines.
pub open spec fn reset_marker() -> Seq<char> {
    seq!['$', '%']
}

proof fn lemma_marker_at(t: Seq<char>, j: int)
    ensures
        matches_at(t, reset_marker(), j) <==> (0 <= j && j + 2 <= t.len() && t[j] == '$' && t[j
            + 1] == '%'),
{
    if 0 <= j && j + 2 <= t.len() && t[j] == '$' && t[j + 1] == '%' {
        assert(t.subrange(j, j + 2) =~= reset_marker());
    }
    if matches_at(t, reset_marker(), j) {
        assert(t.subrange(j, j + 2)[0] == t[j]);
        assert(t.subrange(j, j + 2)[1] == t[j + 1]);
    }
}

/// Replacing the reset marker by a text without `$` and `%` leaves no reset marker.
proof fn lemma_replace_removes_marker(s: Seq<char>, r: Seq<char>, i: int)
    requires
        0 <= i,
        r.len() > 0,
        forall|k: int| 0 <= k < r.len() ==> r[k] != '$' && r[k] != '%',
    ensures
        !contains(replace_from(s, reset_marker(), r, i), reset_marker()),
        i < s.len() ==> replace_from(s, reset_marker(), r, i).len() > 0 && replace_from(
            s,
            reset_marker(),
            r,
            i,
        )[0] == if matches_at(s, reset_marker(), i) {
            r[0]
        } else {
            s[i]
        },
    decreases s.len() - i,
{
    let m = reset_marker();
    let t = replace_from(s, m, r, i);
    if i >= s.len() {
        assert forall|j: int| !#[trigger] matches_at(t, m, j) by {
            lemma_marker_at(t, j);
        }
    } else if matches_at(s, m, i) {
        lemma_replace_removes_marker(s, r, i + 2);
        let rest = replace_from(s, m, r, i + 2);
        assert(t == r + rest);
        assert forall|j: int| !#[trigger] matches_at(t, m, j) by {
            lemma_marker_at(t, j);
            lemma_marker_at(rest, j - r.len());
            if 0 <= j && j + 2 <= t.len() && t[j] == '$' {
                assert(j >= r.len());
            }
        }
    } else {
        lemma_replace_removes_marker(s, r, i + 1);
        let rest = replace_from(s, m, r, i + 1);
        assert(t == seq![s[i]] + rest);
        assert forall|j: int| !#[trigger] matches_at(t, m, j) by {
            lemma_marker_at(t, j);
            lemma_marker_at(rest, j - 1);
            if j == 0 && 2 <= t.len() && t[0] == '$' && t[1] == '%' {
                lemma_marker_at(s, i);
                if matches_at(s, m, i + 1) {
                    assert(rest[0] == r[0]);
                } else {
                    assert(rest[0] == s[i + 1]);
                }
            }
        }
    }
}

/// No `$%` reset marker is left in a coloured logo line: every one became a reset sequence,
/// whatever the line and the colours.
pub proof fn lemma_no_reset_marker_left(line: Seq<char>, colors: Seq<Seq<char>>)
    ensures
        !contains(colored_logo_line(line, colors), reset_marker()),
{
    reveal_strlit("$%");
    reveal_strlit("$%{}");
    reveal_strlit("\x1b[0m");
    assert("$%"@ =~= reset_marker());
    let r = reset_code();
    assert(r =~= seq!['\x1b', '[', '0', 'm']);
    let a = replace(fill_placeholders(line, colors, 15), "$%{}"@, r);
    lemma_replace_removes_marker(a, r, 0);
}

} // verus!
