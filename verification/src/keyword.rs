//! The reserved words of the recipe-file language.
use crate::text::str_equal;
use vstd::prelude::*;

verus! {

/// A keyword of the recipe-file language.
#[derive(Debug, Eq, PartialEq, Copy, Clone, Structural)]
pub enum Keyword {
    Alias,
    AllowDuplicateRecipes,
    AllowDuplicateVariables,
    Assert,
    DotenvFilename,
    DotenvLoad,
    DotenvPath,
    DotenvRequired,
    Else,
    Export,
    Fallback,
    False,
    If,
    IgnoreComments,
    Import,
    Mod,
    PositionalArguments,
    Quiet,
    SetDirective,
    Shell,
    Tempdir,
    True,
    WindowsPowershell,
    WindowsShell,
    X,
}

/// How a keyword is written: its name in kebab case.
pub open spec fn spec_lexeme(keyword: Keyword) -> Seq<char> {
    match keyword {
        Keyword::Alias => "alias"@,
        Keyword::AllowDuplicateRecipes => "allow-duplicate-recipes"@,
        Keyword::AllowDuplicateVariables => "allow-duplicate-variables"@,
        Keyword::Assert => "assert"@,
        Keyword::DotenvFilename => "dotenv-filename"@,
        Keyword::DotenvLoad => "dotenv-load"@,
        Keyword::DotenvPath => "dotenv-path"@,
        Keyword::DotenvRequired => "dotenv-required"@,
        Keyword::Else => "else"@,
        Keyword::Export => "export"@,
        Keyword::Fallback => "fallback"@,
        Keyword::False => "false"@,
        Keyword::If => "if"@,
        Keyword::IgnoreComments => "ignore-comments"@,
        Keyword::Import => "import"@,
        Keyword::Mod => "mod"@,
        Keyword::PositionalArguments => "positional-arguments"@,
        Keyword::Quiet => "quiet"@,
        Keyword::SetDirective => "set"@,
        Keyword::Shell => "shell"@,
        Keyword::Tempdir => "tempdir"@,
        Keyword::True => "true"@,
        Keyword::WindowsPowershell => "windows-powershell"@,
        Keyword::WindowsShell => "windows-shell"@,
        Keyword::X => "x"@,
    }
}

/// Every keyword, in declaration order.
pub open spec fn spec_all_keywords() -> Seq<Keyword> {
    seq![
        Keyword::Alias,
        Keyword::AllowDuplicateRecipes,
        Keyword::AllowDuplicateVariables,
        Keyword::Assert,
        Keyword::DotenvFilename,
        Keyword::DotenvLoad,
        Keyword::DotenvPath,
        Keyword::DotenvRequired,
        Keyword::Else,
        Keyword::Export,
        Keyword::Fallback,
        Keyword::False,
        Keyword::If,
        Keyword::IgnoreComments,
        Keyword::Import,
        Keyword::Mod,
        Keyword::PositionalArguments,
        Keyword::Quiet,
        Keyword::SetDirective,
        Keyword::Shell,
        Keyword::Tempdir,
        Keyword::True,
        Keyword::WindowsPowershell,
        Keyword::WindowsShell,
        Keyword::X,
    ]
}

/// Every keyword is listed by `spec_all_keywords`.
proof fn lemma_all_keywords_complete(keyword: Keyword)
    ensures
        spec_all_keywords().contains(keyword),
{
    match keyword {
        Keyword::Alias => assert(spec_all_keywords()[0] == keyword),
        Keyword::AllowDuplicateRecipes => assert(spec_all_keywords()[1] == keyword),
        Keyword::AllowDuplicateVariables => assert(spec_all_keywords()[2] == keyword),
        Keyword::Assert => assert(spec_all_keywords()[3] == keyword),
        Keyword::DotenvFilename => assert(spec_all_keywords()[4] == keyword),
        Keyword::DotenvLoad => assert(spec_all_keywords()[5] == keyword),
        Keyword::DotenvPath => assert(spec_all_keywords()[6] == keyword),
        Keyword::DotenvRequired => assert(spec_all_keywords()[7] == keyword),
        Keyword::Else => assert(spec_all_keywords()[8] == keyword),
        Keyword::Export => assert(spec_all_keywords()[9] == keyword),
        Keyword::Fallback => assert(spec_all_keywords()[10] == keyword),
        Keyword::False => assert(spec_all_keywords()[11] == keyword),
        Keyword::If => assert(spec_all_keywords()[12] == keyword),
        Keyword::IgnoreComments => assert(spec_all_keywords()[13] == keyword),
        Keyword::Import => assert(spec_all_keywords()[14] == keyword),
        Keyword::Mod => assert(spec_all_keywords()[15] == keyword),
        Keyword::PositionalArguments => assert(spec_all_keywords()[16] == keyword),
        Keyword::Quiet => assert(spec_all_keywords()[17] == keyword),
        Keyword::SetDirective => assert(spec_all_keywords()[18] == keyword),
        Keyword::Shell => assert(spec_all_keywords()[19] == keyword),
        Keyword::Tempdir => assert(spec_all_keywords()[20] == keyword),
        Keyword::True => assert(spec_all_keywords()[21] == keyword),
        Keyword::WindowsPowershell => assert(spec_all_keywords()[22] == keyword),
        Keyword::WindowsShell => assert(spec_all_keywords()[23] == keyword),
        Keyword::X => assert(spec_all_keywords()[24] == keyword),
    }
}

/// The length of how a keyword is written.
spec fn lexeme_len(keyword: Keyword) -> nat {
    match keyword {
        Keyword::Alias => 5,
        Keyword::AllowDuplicateRecipes => 23,
        Keyword::AllowDuplicateVariables => 25,
        Keyword::Assert => 6,
        Keyword::DotenvFilename => 15,
        Keyword::DotenvLoad => 11,
        Keyword::DotenvPath => 11,
        Keyword::DotenvRequired => 15,
        Keyword::Else => 4,
        Keyword::Export => 6,
        Keyword::Fallback => 8,
        Keyword::False => 5,
        Keyword::If => 2,
        Keyword::IgnoreComments => 15,
        Keyword::Import => 6,
        Keyword::Mod => 3,
        Keyword::PositionalArguments => 20,
        Keyword::Quiet => 5,
        Keyword::SetDirective => 3,
        Keyword::Shell => 5,
        Keyword::Tempdir => 7,
        Keyword::True => 4,
        Keyword::WindowsPowershell => 18,
        Keyword::WindowsShell => 13,
        Keyword::X => 1,
    }
}

proof fn lemma_lexeme_len(keyword: Keyword)
    ensures
        spec_lexeme(keyword).len() == lexeme_len(keyword),
{
    match keyword {
        Keyword::Alias => reveal_strlit("alias"),
        Keyword::AllowDuplicateRecipes => reveal_strlit("allow-duplicate-recipes"),
        Keyword::AllowDuplicateVariables => reveal_strlit("allow-duplicate-variables"),
        Keyword::Assert => reveal_strlit("assert"),
        Keyword::DotenvFilename => reveal_strlit("dotenv-filename"),
        Keyword::DotenvLoad => reveal_strlit("dotenv-load"),
        Keyword::DotenvPath => reveal_strlit("dotenv-path"),
        Keyword::DotenvRequired => reveal_strlit("dotenv-required"),
        Keyword::Else => reveal_strlit("else"),
        Keyword::Export => reveal_strlit("export"),
        Keyword::Fallback => reveal_strlit("fallback"),
        Keyword::False => reveal_strlit("false"),
        Keyword::If => reveal_strlit("if"),
        Keyword::IgnoreComments => reveal_strlit("ignore-comments"),
        Keyword::Import => reveal_strlit("import"),
        Keyword::Mod => reveal_strlit("mod"),
        Keyword::PositionalArguments => reveal_strlit("positional-arguments"),
        Keyword::Quiet => reveal_strlit("quiet"),
        Keyword::SetDirective => reveal_strlit("set"),
        Keyword::Shell => reveal_strlit("shell"),
        Keyword::Tempdir => reveal_strlit("tempdir"),
        Keyword::True => reveal_strlit("true"),
        Keyword::WindowsPowershell => reveal_strlit("windows-powershell"),
        Keyword::WindowsShell => reveal_strlit("windows-shell"),
        Keyword::X => reveal_strlit("x"),
    }
}

/// Distinct keywords are written differently, so a lexeme names at most one
/// keyword.
pub proof fn lemma_lexeme_injective(a: Keyword, b: Keyword)
    requires
        spec_lexeme(a) == spec_lexeme(b),
    ensures
        a == b,
{
    lemma_lexeme_len(a);
    lemma_lexeme_len(b);
    if a != b {
        match a {
            Keyword::Alias => match b {
                Keyword::False => {
                    reveal_strlit("alias");
                    reveal_strlit("false");
                    assert("alias"@[0] == 'a');
                    assert("false"@[0] == 'f');
                    assert(spec_lexeme(b)[0] != spec_lexeme(a)[0]);
                },
                Keyword::Quiet => {
                    reveal_strlit("alias");
                    reveal_strlit("quiet");
                    assert("alias"@[0] == 'a');
                    assert("quiet"@[0] == 'q');
                    assert(spec_lexeme(b)[0] != spec_lexeme(a)[0]);
                },
                Keyword::Shell => {
                    reveal_strlit("alias");
                    reveal_strlit("shell");
                    assert("alias"@[0] == 'a');
                    assert("shell"@[0] == 's');
                    assert(spec_lexeme(b)[0] != spec_lexeme(a)[0]);
                },
                _ => {},
            },
            Keyword::AllowDuplicateRecipes => {},
            Keyword::AllowDuplicateVariables => {},
            Keyword::Assert => match b {
                Keyword::Export => {
                    reveal_strlit("assert");
                    reveal_strlit("export");
                    assert("assert"@[0] == 'a');
                    assert("export"@[0] == 'e');
                    assert(spec_lexeme(b)[0] != spec_lexeme(a)[0]);
                },
                Keyword::Import => {
                    reveal_strlit("assert");
                    reveal_strlit("import");
                    assert("assert"@[0] == 'a');
                    assert("import"@[0] == 'i');
                    assert(spec_lexeme(b)[0] != spec_lexeme(a)[0]);
                },
                _ => {},
            },
            Keyword::DotenvFilename => match b {
                Keyword::DotenvRequired => {
                    reveal_strlit("dotenv-filename");
                    reveal_strlit("dotenv-required");
                    assert("dotenv-filename"@[7] == 'f');
                    assert("dotenv-required"@[7] == 'r');
                    assert(spec_lexeme(b)[7] != spec_lexeme(a)[7]);
                },
                Keyword::IgnoreComments => {
                    reveal_strlit("dotenv-filename");
                    reveal_strlit("ignore-comments");
                    assert("dotenv-filename"@[0] == 'd');
                    assert("ignore-comments"@[0] == 'i');
                    assert(spec_lexeme(b)[0] != spec_lexeme(a)[0]);
                },
                _ => {},
            },
            Keyword::DotenvLoad => match b {
                Keyword::DotenvPath => {
                    reveal_strlit("dotenv-load");
                    reveal_strlit("dotenv-path");
                    assert("dotenv-load"@[7] == 'l');
                    assert("dotenv-path"@[7] == 'p');
                    assert(spec_lexeme(b)[7] != spec_lexeme(a)[7]);
                },
                _ => {},
            },
            Keyword::DotenvPath => match b {
                Keyword::DotenvLoad => {
                    reveal_strlit("dotenv-path");
                    reveal_strlit("dotenv-load");
                    assert("dotenv-path"@[7] == 'p');
                    assert("dotenv-load"@[7] == 'l');
                    assert(spec_lexeme(b)[7] != spec_lexeme(a)[7]);
                },
                _ => {},
            },
            Keyword::DotenvRequired => match b {
                Keyword::DotenvFilename => {
                    reveal_strlit("dotenv-required");
                    reveal_strlit("dotenv-filename");
                    assert("dotenv-required"@[7] == 'r');
                    assert("dotenv-filename"@[7] == 'f');
                    assert(spec_lexeme(b)[7] != spec_lexeme(a)[7]);
                },
                Keyword::IgnoreComments => {
                    reveal_strlit("dotenv-required");
                    reveal_strlit("ignore-comments");
                    assert("dotenv-required"@[0] == 'd');
                    assert("ignore-comments"@[0] == 'i');
                    assert(spec_lexeme(b)[0] != spec_lexeme(a)[0]);
                },
                _ => {},
            },
            Keyword::Else => match b {
                Keyword::True => {
                    reveal_strlit("else");
                    reveal_strlit("true");
                    assert("else"@[0] == 'e');
                    assert("true"@[0] == 't');
                    assert(spec_lexeme(b)[0] != spec_lexeme(a)[0]);
                },
                _ => {},
            },
            Keyword::Export => match b {
                Keyword::Assert => {
                    reveal_strlit("export");
                    reveal_strlit("assert");
                    assert("export"@[0] == 'e');
                    assert("assert"@[0] == 'a');
                    assert(spec_lexeme(b)[0] != spec_lexeme(a)[0]);
                },
                Keyword::Import => {
                    reveal_strlit("export");
                    reveal_strlit("import");
                    assert("export"@[0] == 'e');
                    assert("import"@[0] == 'i');
                    assert(spec_lexeme(b)[0] != spec_lexeme(a)[0]);
                },
                _ => {},
            },
            Keyword::Fallback => {},
            Keyword::False => match b {
                Keyword::Alias => {
                    reveal_strlit("false");
                    reveal_strlit("alias");
                    assert("false"@[0] == 'f');
                    assert("alias"@[0] == 'a');
                    assert(spec_lexeme(b)[0] != spec_lexeme(a)[0]);
                },
                Keyword::Quiet => {
                    reveal_strlit("false");
                    reveal_strlit("quiet");
                    assert("false"@[0] == 'f');
                    assert("quiet"@[0] == 'q');
                    assert(spec_lexeme(b)[0] != spec_lexeme(a)[0]);
                },
                Keyword::Shell => {
                    reveal_strlit("false");
                    reveal_strlit("shell");
                    assert("false"@[0] == 'f');
                    assert("shell"@[0] == 's');
                    assert(spec_lexeme(b)[0] != spec_lexeme(a)[0]);
                },
                _ => {},
            },
            Keyword::If => {},
            Keyword::IgnoreComments => match b {
                Keyword::DotenvFilename => {
                    reveal_strlit("ignore-comments");
                    reveal_strlit("dotenv-filename");
                    assert("ignore-comments"@[0] == 'i');
                    assert("dotenv-filename"@[0] == 'd');
                    assert(spec_lexeme(b)[0] != spec_lexeme(a)[0]);
                },
                Keyword::DotenvRequired => {
                    reveal_strlit("ignore-comments");
                    reveal_strlit("dotenv-required");
                    assert("ignore-comments"@[0] == 'i');
                    assert("dotenv-required"@[0] == 'd');
                    assert(spec_lexeme(b)[0] != spec_lexeme(a)[0]);
                },
                _ => {},
            },
            Keyword::Import => match b {
                Keyword::Assert => {
                    reveal_strlit("import");
                    reveal_strlit("assert");
                    assert("import"@[0] == 'i');
                    assert("assert"@[0] == 'a');
                    assert(spec_lexeme(b)[0] != spec_lexeme(a)[0]);
                },
                Keyword::Export => {
                    reveal_strlit("import");
                    reveal_strlit("export");
                    assert("import"@[0] == 'i');
                    assert("export"@[0] == 'e');
                    assert(spec_lexeme(b)[0] != spec_lexeme(a)[0]);
                },
                _ => {},
            },
            Keyword::Mod => match b {
                Keyword::SetDirective => {
                    reveal_strlit("mod");
                    reveal_strlit("set");
                    assert("mod"@[0] == 'm');
                    assert("set"@[0] == 's');
                    assert(spec_lexeme(b)[0] != spec_lexeme(a)[0]);
                },
                _ => {},
            },
            Keyword::PositionalArguments => {},
            Keyword::Quiet => match b {
                Keyword::Alias => {
                    reveal_strlit("quiet");
                    reveal_strlit("alias");
                    assert("quiet"@[0] == 'q');
                    assert("alias"@[0] == 'a');
                    assert(spec_lexeme(b)[0] != spec_lexeme(a)[0]);
                },
                Keyword::False => {
                    reveal_strlit("quiet");
                    reveal_strlit("false");
                    assert("quiet"@[0] == 'q');
                    assert("false"@[0] == 'f');
                    assert(spec_lexeme(b)[0] != spec_lexeme(a)[0]);
                },
                Keyword::Shell => {
                    reveal_strlit("quiet");
                    reveal_strlit("shell");
                    assert("quiet"@[0] == 'q');
                    assert("shell"@[0] == 's');
                    assert(spec_lexeme(b)[0] != spec_lexeme(a)[0]);
                },
                _ => {},
            },
            Keyword::SetDirective => match b {
                Keyword::Mod => {
                    reveal_strlit("set");
                    reveal_strlit("mod");
                    assert("set"@[0] == 's');
                    assert("mod"@[0] == 'm');
                    assert(spec_lexeme(b)[0] != spec_lexeme(a)[0]);
                },
                _ => {},
            },
            Keyword::Shell => match b {
                Keyword::Alias => {
                    reveal_strlit("shell");
                    reveal_strlit("alias");
                    assert("shell"@[0] == 's');
                    assert("alias"@[0] == 'a');
                    assert(spec_lexeme(b)[0] != spec_lexeme(a)[0]);
                },
                Keyword::False => {
                    reveal_strlit("shell");
                    reveal_strlit("false");
                    assert("shell"@[0] == 's');
                    assert("false"@[0] == 'f');
                    assert(spec_lexeme(b)[0] != spec_lexeme(a)[0]);
                },
                Keyword::Quiet => {
                    reveal_strlit("shell");
                    reveal_strlit("quiet");
                    assert("shell"@[0] == 's');
                    assert("quiet"@[0] == 'q');
                    assert(spec_lexeme(b)[0] != spec_lexeme(a)[0]);
                },
                _ => {},
            },
            Keyword::Tempdir => {},
            Keyword::True => match b {
                Keyword::Else => {
                    reveal_strlit("true");
                    reveal_strlit("else");
                    assert("true"@[0] == 't');
                    assert("else"@[0] == 'e');
                    assert(spec_lexeme(b)[0] != spec_lexeme(a)[0]);
                },
                _ => {},
            },
            Keyword::WindowsPowershell => {},
            Keyword::WindowsShell => {},
            Keyword::X => {},
        }
    }
}

impl Keyword {
    /// Every keyword, in declaration order.
    pub fn all() -> (r: Vec<Keyword>)
        ensures
            r@ == spec_all_keywords(),
    {
        let r = vec![
            Keyword::Alias,
            Keyword::AllowDuplicateRecipes,
            Keyword::AllowDuplicateVariables,
            Keyword::Assert,
            Keyword::DotenvFilename,
            Keyword::DotenvLoad,
            Keyword::DotenvPath,
            Keyword::DotenvRequired,
            Keyword::Else,
            Keyword::Export,
            Keyword::Fallback,
            Keyword::False,
            Keyword::If,
            Keyword::IgnoreComments,
            Keyword::Import,
            Keyword::Mod,
            Keyword::PositionalArguments,
            Keyword::Quiet,
            Keyword::SetDirective,
            Keyword::Shell,
            Keyword::Tempdir,
            Keyword::True,
            Keyword::WindowsPowershell,
            Keyword::WindowsShell,
            Keyword::X,
        ];
        assert(r@ =~= spec_all_keywords());
        r
    }

    /// How this keyword is written.
    pub fn lexeme(self) -> (r: &'static str)
        ensures
            r@ == spec_lexeme(self),
    {
        match self {
            Keyword::Alias => "alias",
            Keyword::AllowDuplicateRecipes => "allow-duplicate-recipes",
            Keyword::AllowDuplicateVariables => "allow-duplicate-variables",
            Keyword::Assert => "assert",
            Keyword::DotenvFilename => "dotenv-filename",
            Keyword::DotenvLoad => "dotenv-load",
            Keyword::DotenvPath => "dotenv-path",
            Keyword::DotenvRequired => "dotenv-required",
            Keyword::Else => "else",
            Keyword::Export => "export",
            Keyword::Fallback => "fallback",
            Keyword::False => "false",
            Keyword::If => "if",
            Keyword::IgnoreComments => "ignore-comments",
            Keyword::Import => "import",
            Keyword::Mod => "mod",
            Keyword::PositionalArguments => "positional-arguments",
            Keyword::Quiet => "quiet",
            Keyword::SetDirective => "set",
            Keyword::Shell => "shell",
            Keyword::Tempdir => "tempdir",
            Keyword::True => "true",
            Keyword::WindowsPowershell => "windows-powershell",
            Keyword::WindowsShell => "windows-shell",
            Keyword::X => "x",
        }
    }

    /// The keyword written `lexeme`, if there is one.
    pub fn from_lexeme(lexeme: &str) -> (r: Option<Keyword>)
        ensures
            match r {
                Some(k) => spec_lexeme(k) == lexeme@,
                None => forall|k: Keyword| spec_lexeme(k) != lexeme@,
            },
            forall|k: Keyword| spec_lexeme(k) == lexeme@ ==> r == Some(k),
    {
        let all = Self::all();
        let mut i: usize = 0;
        while i < all.len()
            invariant
                all@ == spec_all_keywords(),
                i <= all.len(),
                forall|j: int| 0 <= j < i ==> spec_lexeme(#[trigger] all@[j]) != lexeme@,
            decreases all.len() - i,
        {
            if str_equal(all[i].lexeme(), lexeme) {
                let found = all[i];
                assert forall|k: Keyword| spec_lexeme(k) == lexeme@ implies Some(found) == Some(k) by {
                    lemma_lexeme_injective(found, k);
                }
                return Some(found);
            }
            i += 1;
        }
        assert forall|k: Keyword| spec_lexeme(k) != lexeme@ by {
            lemma_all_keywords_complete(k);
            let j = choose|j: int| 0 <= j < all.len() && all@[j] == k;
            assert(spec_lexeme(all@[j]) != lexeme@);
        }
        None
    }

    /// Whether `other` is how this keyword is written.
    pub fn eq_str(self, other: &str) -> (r: bool)
        ensures
            r == (spec_lexeme(self) == other@),
    {
        str_equal(self.lexeme(), other)
    }
}

} // verus!
