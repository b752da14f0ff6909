//! The constants that recipe files can use, with the values they take on
//! Unix and on Windows and the version that introduced them.
use vstd::prelude::*;

verus! {

/// Each constant: its name, its value, its value on Windows where that
/// differs, and the version that introduced it.
pub open spec fn spec_constants_table() -> Seq<(&'static str, &'static str, Option<&'static str>, &'static str)> {
    seq![
        ("HEX", "0123456789abcdef", None, "1.27.0"),
        ("HEXLOWER", "0123456789abcdef", None, "1.27.0"),
        ("HEXUPPER", "0123456789ABCDEF", None, "1.27.0"),
        ("PATH_SEP", "/", Some("\\"), "1.41.0"),
        ("PATH_VAR_SEP", ":", Some(";"), "1.41.0"),
        ("CLEAR", "\x1bc", None, "1.37.0"),
        ("NORMAL", "\x1b[0m", None, "1.37.0"),
        ("BOLD", "\x1b[1m", None, "1.37.0"),
        ("ITALIC", "\x1b[3m", None, "1.37.0"),
        ("UNDERLINE", "\x1b[4m", None, "1.37.0"),
        ("INVERT", "\x1b[7m", None, "1.37.0"),
        ("HIDE", "\x1b[8m", None, "1.37.0"),
        ("STRIKETHROUGH", "\x1b[9m", None, "1.37.0"),
        ("BLACK", "\x1b[30m", None, "1.37.0"),
        ("RED", "\x1b[31m", None, "1.37.0"),
        ("GREEN", "\x1b[32m", None, "1.37.0"),
        ("YELLOW", "\x1b[33m", None, "1.37.0"),
        ("BLUE", "\x1b[34m", None, "1.37.0"),
        ("MAGENTA", "\x1b[35m", None, "1.37.0"),
        ("CYAN", "\x1b[36m", None, "1.37.0"),
        ("WHITE", "\x1b[37m", None, "1.37.0"),
        ("BG_BLACK", "\x1b[40m", None, "1.37.0"),
        ("BG_RED", "\x1b[41m", None, "1.37.0"),
        ("BG_GREEN", "\x1b[42m", None, "1.37.0"),
        ("BG_YELLOW", "\x1b[43m", None, "1.37.0"),
        ("BG_BLUE", "\x1b[44m", None, "1.37.0"),
        ("BG_MAGENTA", "\x1b[45m", None, "1.37.0"),
        ("BG_CYAN", "\x1b[46m", None, "1.37.0"),
        ("BG_WHITE", "\x1b[47m", None, "1.37.0"),
    ]
}

/// The value a constant takes on the platform (Windows or not).
pub open spec fn spec_value(
    row: (&'static str, &'static str, Option<&'static str>, &'static str),
    windows: bool,
) -> &'static str {
    if windows {
        match row.2 {
            Some(value) => value,
            None => row.1,
        }
    } else {
        row.1
    }
}

/// Each constant: its name, its value, its value on Windows where that
/// differs, and the version that introduced it.
pub fn constants_table() -> (r: Vec<(&'static str, &'static str, Option<&'static str>, &'static str)>)
    ensures
        r@ == spec_constants_table(),
{
    let r = vec![
        ("HEX", "0123456789abcdef", None, "1.27.0"),
        ("HEXLOWER", "0123456789abcdef", None, "1.27.0"),
        ("HEXUPPER", "0123456789ABCDEF", None, "1.27.0"),
        ("PATH_SEP", "/", Some("\\"), "1.41.0"),
        ("PATH_VAR_SEP", ":", Some(";"), "1.41.0"),
        ("CLEAR", "\x1bc", None, "1.37.0"),
        ("NORMAL", "\x1b[0m", None, "1.37.0"),
        ("BOLD", "\x1b[1m", None, "1.37.0"),
        ("ITALIC", "\x1b[3m", None, "1.37.0"),
        ("UNDERLINE", "\x1b[4m", None, "1.37.0"),
        ("INVERT", "\x1b[7m", None, "1.37.0"),
        ("HIDE", "\x1b[8m", None, "1.37.0"),
        ("STRIKETHROUGH", "\x1b[9m", None, "1.37.0"),
        ("BLACK", "\x1b[30m", None, "1.37.0"),
        ("RED", "\x1b[31m", None, "1.37.0"),
        ("GREEN", "\x1b[32m", None, "1.37.0"),
        ("YELLOW", "\x1b[33m", None, "1.37.0"),
        ("BLUE", "\x1b[34m", None, "1.37.0"),
        ("MAGENTA", "\x1b[35m", None, "1.37.0"),
        ("CYAN", "\x1b[36m", None, "1.37.0"),
        ("WHITE", "\x1b[37m", None, "1.37.0"),
        ("BG_BLACK", "\x1b[40m", None, "1.37.0"),
        ("BG_RED", "\x1b[41m", None, "1.37.0"),
        ("BG_GREEN", "\x1b[42m", None, "1.37.0"),
        ("BG_YELLOW", "\x1b[43m", None, "1.37.0"),
        ("BG_BLUE", "\x1b[44m", None, "1.37.0"),
        ("BG_MAGENTA", "\x1b[45m", None, "1.37.0"),
        ("BG_CYAN", "\x1b[46m", None, "1.37.0"),
        ("BG_WHITE", "\x1b[47m", None, "1.37.0"),
    ];
    assert(r@ =~= spec_constants_table());
    r
}

/// The name and value of each constant on the platform (Windows or not).
pub fn constants(windows: bool) -> (r: Vec<(&'static str, &'static str)>)
    ensures
        r@.len() == spec_constants_table().len(),
        forall|i: int|
            0 <= i < r@.len() ==> #[trigger] r@[i] == (
                spec_constants_table()[i].0,
                spec_value(spec_constants_table()[i], windows),
            ),
{
    let table = constants_table();
    let mut r: Vec<(&'static str, &'static str)> = Vec::new();
    let mut i: usize = 0;
    while i < table.len()
        invariant
            table@ == spec_constants_table(),
            i <= table.len(),
            r@.len() == i,
            forall|j: int|
                0 <= j < i ==> #[trigger] r@[j] == (
                    spec_constants_table()[j].0,
                    spec_value(spec_constants_table()[j], windows),
                ),
        decreases table.len() - i,
    {
        let (name, unix, windows_value, _version) = table[i];
        let value = if windows {
            match windows_value {
                Some(value) => value,
                None => unix,
            }
        } else {
            unix
        };
        r.push((name, value));
        i += 1;
    }
    r
}

} // verus!
