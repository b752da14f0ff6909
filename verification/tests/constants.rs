use just::constants::{constants, constants_table};

/// The table of constants as README.md shows it.
const README_TABLE: &str = "| Name | Value | Value on Windows |\n|---|---|---|\n| `HEX`<sup>1.27.0</sup> | `\"0123456789abcdef\"` |  |\n| `HEXLOWER`<sup>1.27.0</sup> | `\"0123456789abcdef\"` |  |\n| `HEXUPPER`<sup>1.27.0</sup> | `\"0123456789ABCDEF\"` |  |\n| `PATH_SEP`<sup>1.41.0</sup> | `\"/\"` | \"\\\" |\n| `PATH_VAR_SEP`<sup>1.41.0</sup> | `\":\"` | \";\" |\n| `CLEAR`<sup>1.37.0</sup> | `\"\\ec\"` |  |\n| `NORMAL`<sup>1.37.0</sup> | `\"\\e[0m\"` |  |\n| `BOLD`<sup>1.37.0</sup> | `\"\\e[1m\"` |  |\n| `ITALIC`<sup>1.37.0</sup> | `\"\\e[3m\"` |  |\n| `UNDERLINE`<sup>1.37.0</sup> | `\"\\e[4m\"` |  |\n| `INVERT`<sup>1.37.0</sup> | `\"\\e[7m\"` |  |\n| `HIDE`<sup>1.37.0</sup> | `\"\\e[8m\"` |  |\n| `STRIKETHROUGH`<sup>1.37.0</sup> | `\"\\e[9m\"` |  |\n| `BLACK`<sup>1.37.0</sup> | `\"\\e[30m\"` |  |\n| `RED`<sup>1.37.0</sup> | `\"\\e[31m\"` |  |\n| `GREEN`<sup>1.37.0</sup> | `\"\\e[32m\"` |  |\n| `YELLOW`<sup>1.37.0</sup> | `\"\\e[33m\"` |  |\n| `BLUE`<sup>1.37.0</sup> | `\"\\e[34m\"` |  |\n| `MAGENTA`<sup>1.37.0</sup> | `\"\\e[35m\"` |  |\n| `CYAN`<sup>1.37.0</sup> | `\"\\e[36m\"` |  |\n| `WHITE`<sup>1.37.0</sup> | `\"\\e[37m\"` |  |\n| `BG_BLACK`<sup>1.37.0</sup> | `\"\\e[40m\"` |  |\n| `BG_RED`<sup>1.37.0</sup> | `\"\\e[41m\"` |  |\n| `BG_GREEN`<sup>1.37.0</sup> | `\"\\e[42m\"` |  |\n| `BG_YELLOW`<sup>1.37.0</sup> | `\"\\e[43m\"` |  |\n| `BG_BLUE`<sup>1.37.0</sup> | `\"\\e[44m\"` |  |\n| `BG_MAGENTA`<sup>1.37.0</sup> | `\"\\e[45m\"` |  |\n| `BG_CYAN`<sup>1.37.0</sup> | `\"\\e[46m\"` |  |\n| `BG_WHITE`<sup>1.37.0</sup> | `\"\\e[47m\"` |  |";

#[test]
fn readme_table() {
  let mut table = Vec::<String>::new();
  table.push("| Name | Value | Value on Windows |".into());
  table.push("|---|---|---|".into());
  for (name, unix, windows, version) in constants_table() {
    table.push(format!(
      "| `{name}`<sup>{version}</sup> | `\"{}\"` | {} |",
      unix.replace('\x1b', "\\e"),
      windows
        .map(|value| format!("\"{value}\""))
        .unwrap_or_default(),
    ));
  }

  let table = table.join("\n");

  let readme = README_TABLE;

  assert!(
    readme.contains(&table),
    "could not find table in readme:\n{table}",
  );
}

#[test]
fn constants_per_platform() {
  let unix = constants(false);
  let windows = constants(true);
  assert_eq!(unix.len(), 29);
  assert!(unix.contains(&("PATH_SEP", "/")));
  assert!(windows.contains(&("PATH_SEP", "\\")));
  assert!(windows.contains(&("PATH_VAR_SEP", ";")));
  assert!(windows.contains(&("HEX", "0123456789abcdef")));
  assert!(unix.contains(&("RED", "\x1b[31m")));
}
