//! The built-in registry: the rulesets of the known languages, and the file
//! extensions and file names that select them.

use vstd::prelude::*;

verus! {

/// One row of the language table: display name, line-comment tokens,
/// block-comment opening and closing tokens, whether block comments nest, and
/// string delimiters. A slot that holds the empty string is unused; a language
/// without block comments leaves both block tokens empty.
///
/// Each table stands in the order of its keys, so that no key occurs twice.
pub type LanguageRow = (
    &'static str,
    [&'static str; 4],
    [&'static str; 2],
    bool,
    [&'static str; 2],
);

/// The rulesets of the built-in languages, by rising name.
pub const LANGUAGES: [LanguageRow; 142] = [
    ("ARM Assembly", [";", "@", "//", ""], ["/*", "*/"], false, ["\"", "'"]),
    ("AXAML", ["", "", "", ""], ["<!--", "-->"], false, ["\"", "'"]),
    ("ActionScript", ["//", "", "", ""], ["/*", "*/"], false, ["\"", "'"]),
    ("Ada", ["--", "", "", ""], ["", ""], false, ["\"", ""]),
    ("Aria", ["#", "", "", ""], ["", ""], false, ["\"", "'"]),
    ("AsciiDoc", ["//", "", "", ""], ["////", "////"], false, ["", ""]),
    ("Assembly", [";", "#", "//", ""], ["/*", "*/"], false, ["\"", "'"]),
    ("Awk", ["#", "", "", ""], ["", ""], false, ["\"", "'"]),
    ("Bash", ["#", "", "", ""], ["", ""], false, ["\"", "'"]),
    ("Batch", ["REM", "rem", "::", ""], ["", ""], false, ["\"", ""]),
    ("Bazel", ["#", "", "", ""], ["", ""], false, ["\"", "'"]),
    ("Bicep", ["//", "", "", ""], ["/*", "*/"], false, ["\"", "'"]),
    ("BitBake", ["#", "", "", ""], ["", ""], false, ["\"", "'"]),
    ("C", ["//", "", "", ""], ["/*", "*/"], false, ["\"", "'"]),
    ("C Header", ["//", "", "", ""], ["/*", "*/"], false, ["\"", "'"]),
    ("C#", ["//", "", "", ""], ["/*", "*/"], false, ["\"", "'"]),
    ("C# Generated", ["//", "", "", ""], ["/*", "*/"], false, ["\"", "'"]),
    ("C++", ["//", "", "", ""], ["/*", "*/"], false, ["\"", "'"]),
    ("C++ Header", ["//", "", "", ""], ["/*", "*/"], false, ["\"", "'"]),
    ("CMake", ["#", "", "", ""], ["", ""], false, ["\"", "'"]),
    ("COBOL", ["*", "", "", ""], ["", ""], false, ["\"", "'"]),
    ("CSS", ["", "", "", ""], ["/*", "*/"], false, ["\"", "'"]),
    ("CUE", ["//", "", "", ""], ["/*", "*/"], false, ["\"", "'"]),
    ("Cap'n Proto", ["#", "", "", ""], ["", ""], false, ["\"", "'"]),
    ("Civet", ["//", "", "", ""], ["/*", "*/"], false, ["\"", "'"]),
    ("Clarity", [";;", "", "", ""], ["", ""], false, ["\"", ""]),
    ("Clojure", [";", "", "", ""], ["", ""], false, ["\"", ""]),
    ("CoffeeScript", ["#", "", "", ""], ["###", "###"], false, ["\"", "'"]),
    ("Crystal", ["#", "", "", ""], ["", ""], false, ["\"", "'"]),
    ("D", ["//", "", "", ""], ["/*", "*/"], true, ["\"", "'"]),
    ("Dart", ["//", "", "", ""], ["/*", "*/"], false, ["\"", "'"]),
    ("Delphi", ["//", "", "", ""], ["{", "}"], false, ["'", ""]),
    ("Dhall", ["--", "", "", ""], ["{-", "-}"], true, ["\"", ""]),
    ("Docker Compose", ["#", "", "", ""], ["", ""], false, ["\"", "'"]),
    ("Dockerfile", ["#", "", "", ""], ["", ""], false, ["\"", "'"]),
    ("EJS", ["", "", "", ""], ["<%#", "%>"], false, ["\"", "'"]),
    ("ERB", ["", "", "", ""], ["<%#", "%>"], false, ["\"", "'"]),
    ("Elixir", ["#", "", "", ""], ["@doc \"\"\"", "\"\"\""], false, ["\"", "'"]),
    ("Elm", ["--", "", "", ""], ["{-", "-}"], true, ["\"", ""]),
    ("Emacs Lisp", [";", "", "", ""], ["", ""], false, ["\"", ""]),
    ("Erlang", ["%", "", "", ""], ["", ""], false, ["\"", ""]),
    ("F#", ["//", "", "", ""], ["(*", "*)"], true, ["\"", ""]),
    ("Fish", ["#", "", "", ""], ["", ""], false, ["\"", "'"]),
    ("FlatBuffers", ["//", "", "", ""], ["/*", "*/"], false, ["\"", "'"]),
    ("Forth", ["\\", "", "", ""], ["(", ")"], false, ["\"", ""]),
    ("Fortran", ["!", "C", "c", "*"], ["", ""], false, ["'", "\""]),
    ("Gleam", ["//", "", "", ""], ["/*", "*/"], false, ["\"", "'"]),
    ("Go", ["//", "", "", ""], ["/*", "*/"], false, ["\"", "'"]),
    ("Grain", ["//", "", "", ""], ["/*", "*/"], false, ["\"", "'"]),
    ("GraphQL", ["#", "", "", ""], ["", ""], false, ["\"", "'"]),
    ("Groovy", ["//", "", "", ""], ["/*", "*/"], false, ["\"", "'"]),
    ("HCL", ["//", "#", "", ""], ["/*", "*/"], false, ["\"", "'"]),
    ("HTML", ["", "", "", ""], ["<!--", "-->"], false, ["\"", "'"]),
    ("Handlebars", ["", "", "", ""], ["{{!--", "--}}"], false, ["\"", "'"]),
    ("Haskell", ["--", "", "", ""], ["{-", "-}"], true, ["\"", ""]),
    ("INI", [";", "#", "", ""], ["", ""], false, ["\"", "'"]),
    ("InstallShield", ["//", "", "", ""], ["/*", "*/"], false, ["\"", ""]),
    ("JSON", ["", "", "", ""], ["", ""], false, ["\"", "'"]),
    ("JSON5", ["//", "", "", ""], ["/*", "*/"], false, ["\"", "'"]),
    ("JSX", ["//", "", "", ""], ["/*", "*/"], false, ["\"", "'"]),
    ("Java", ["//", "", "", ""], ["/*", "*/"], false, ["\"", "'"]),
    ("JavaScript", ["//", "", "", ""], ["/*", "*/"], false, ["\"", "'"]),
    ("Jinja2", ["", "", "", ""], ["{#", "#}"], false, ["\"", "'"]),
    ("Jsonnet", ["//", "", "", ""], ["/*", "*/"], false, ["\"", "'"]),
    ("Julia", ["#", "", "", ""], ["#=", "=#"], false, ["\"", "'"]),
    ("Just", ["#", "", "", ""], ["", ""], false, ["\"", "'"]),
    ("KDL", ["//", "", "", ""], ["/*", "*/"], false, ["\"", "'"]),
    ("Kotlin", ["//", "", "", ""], ["/*", "*/"], true, ["\"", "'"]),
    ("LaTeX", ["%", "", "", ""], ["", ""], false, ["", ""]),
    ("Less", ["//", "", "", ""], ["/*", "*/"], false, ["\"", "'"]),
    ("Lisp", [";", "", "", ""], ["#|", "|#"], true, ["\"", ""]),
    ("Lua", ["--", "", "", ""], ["--[[", "]]"], false, ["\"", "'"]),
    ("MATLAB", ["%", "", "", ""], ["%{", "%}"], false, ["'", "\""]),
    ("MSBuild", ["", "", "", ""], ["<!--", "-->"], false, ["\"", "'"]),
    ("Magik", ["#", "", "", ""], ["", ""], false, ["\"", "'"]),
    ("Makefile", ["#", "", "", ""], ["", ""], false, ["\"", "'"]),
    ("Markdown", ["", "", "", ""], ["<!--", "-->"], false, ["\"", "'"]),
    ("Meson", ["#", "", "", ""], ["", ""], false, ["\"", "'"]),
    ("Move", ["//", "", "", ""], ["/*", "*/"], false, ["\"", "'"]),
    ("Nim", ["#", "", "", ""], ["#[", "]#"], true, ["\"", "'"]),
    ("Nix", ["#", "", "", ""], ["/*", "*/"], false, ["\"", "'"]),
    ("OCaml", ["", "", "", ""], ["(*", "*)"], true, ["\"", ""]),
    ("Objective-C", ["//", "", "", ""], ["/*", "*/"], false, ["\"", "'"]),
    ("Objective-C++", ["//", "", "", ""], ["/*", "*/"], false, ["\"", "'"]),
    ("Octave", ["%", "#", "", ""], ["%{", "%}"], false, ["'", "\""]),
    ("Odin", ["//", "", "", ""], ["/*", "*/"], true, ["\"", "'"]),
    ("Org", ["#", "", "", ""], ["", ""], false, ["\"", "'"]),
    ("PHP", ["//", "#", "", ""], ["/*", "*/"], false, ["\"", "'"]),
    ("Pascal", ["//", "", "", ""], ["{", "}"], false, ["'", ""]),
    ("Perl", ["#", "", "", ""], ["=pod", "=cut"], false, ["\"", "'"]),
    ("PowerShell", ["#", "", "", ""], ["<#", "#>"], false, ["\"", "'"]),
    ("Prolog", ["%", "", "", ""], ["/*", "*/"], false, ["\"", "'"]),
    ("Properties", ["#", "!", "", ""], ["", ""], false, ["", ""]),
    ("Protocol Buffers", ["//", "", "", ""], ["/*", "*/"], false, ["\"", "'"]),
    ("Python", ["#", "", "", ""], ["\"\"\"", "\"\"\""], false, ["\"", "'"]),
    ("R", ["#", "", "", ""], ["", ""], false, ["\"", "'"]),
    ("Racket", [";", "", "", ""], ["#|", "|#"], true, ["\"", ""]),
    ("Rego", ["#", "", "", ""], ["", ""], false, ["\"", "'"]),
    ("Roc", ["#", "", "", ""], ["", ""], false, ["\"", "'"]),
    ("Ruby", ["#", "", "", ""], ["=begin", "=end"], false, ["\"", "'"]),
    ("Rust", ["//", "", "", ""], ["/*", "*/"], true, ["\"", "'"]),
    ("SCSS", ["//", "", "", ""], ["/*", "*/"], false, ["\"", "'"]),
    ("SQL", ["--", "", "", ""], ["/*", "*/"], false, ["'", ""]),
    ("SVG", ["", "", "", ""], ["<!--", "-->"], false, ["\"", "'"]),
    ("Sass", ["//", "", "", ""], ["/*", "*/"], false, ["\"", "'"]),
    ("Scala", ["//", "", "", ""], ["/*", "*/"], true, ["\"", "'"]),
    ("Scheme", [";", "", "", ""], ["#|", "|#"], true, ["\"", ""]),
    ("Shell", ["#", "", "", ""], ["", ""], false, ["\"", "'"]),
    ("Solidity", ["//", "", "", ""], ["/*", "*/"], false, ["\"", "'"]),
    ("Standard ML", ["", "", "", ""], ["(*", "*)"], true, ["\"", ""]),
    ("Svelte", ["", "", "", ""], ["<!--", "-->"], false, ["\"", "'"]),
    ("Swift", ["//", "", "", ""], ["/*", "*/"], true, ["\"", "'"]),
    ("SystemVerilog", ["//", "", "", ""], ["/*", "*/"], false, ["\"", "'"]),
    ("TOML", ["#", "", "", ""], ["", ""], false, ["\"", "'"]),
    ("TSX", ["//", "", "", ""], ["/*", "*/"], false, ["\"", "'"]),
    ("Tcl", ["#", "", "", ""], ["", ""], false, ["\"", "'"]),
    ("TeX", ["%", "", "", ""], ["", ""], false, ["", ""]),
    ("Terraform", ["//", "#", "", ""], ["/*", "*/"], false, ["\"", "'"]),
    ("Text", ["", "", "", ""], ["", ""], false, ["\"", "'"]),
    ("Thrift", ["//", "", "", ""], ["/*", "*/"], false, ["\"", "'"]),
    ("TypeScript", ["//", "", "", ""], ["/*", "*/"], false, ["\"", "'"]),
    ("USS", ["//", "", "", ""], ["/*", "*/"], false, ["\"", "'"]),
    ("UXML", ["", "", "", ""], ["<!--", "-->"], false, ["\"", "'"]),
    ("V", ["//", "", "", ""], ["/*", "*/"], false, ["\"", "'"]),
    ("VHDL", ["--", "", "", ""], ["", ""], false, ["\"", ""]),
    ("VSCode Workspace", ["", "", "", ""], ["", ""], false, ["\"", "'"]),
    ("Verilog", ["//", "", "", ""], ["/*", "*/"], false, ["\"", "'"]),
    ("Vim Script", ["\"", "", "", ""], ["", ""], false, ["'", ""]),
    ("Visual Basic", ["'", "", "", ""], ["", ""], false, ["\"", ""]),
    ("Visual Studio Solution", ["#", "", "", ""], ["", ""], false, ["\"", "'"]),
    ("Vue", ["", "", "", ""], ["<!--", "-->"], false, ["\"", "'"]),
    ("Vyper", ["#", "", "", ""], ["\"\"\"", "\"\"\""], false, ["\"", "'"]),
    ("WebAssembly", [";;", "", "", ""], ["(;", ";)"], true, ["\"", ""]),
    ("Windows Module Definition", [";", "", "", ""], ["", ""], false, ["\"", ""]),
    ("Windows Resource", ["//", "", "", ""], ["/*", "*/"], false, ["\"", "'"]),
    ("XML", ["", "", "", ""], ["<!--", "-->"], false, ["\"", "'"]),
    ("XSD", ["", "", "", ""], ["<!--", "-->"], false, ["\"", "'"]),
    ("YAML", ["#", "", "", ""], ["", ""], false, ["\"", "'"]),
    ("Yarn", ["#", "", "", ""], ["", ""], false, ["\"", "'"]),
    ("Zig", ["//", "", "", ""], ["", ""], false, ["\"", ""]),
    ("Zsh", ["#", "", "", ""], ["", ""], false, ["\"", "'"]),
    ("reStructuredText", ["..", "", "", ""], ["", ""], false, ["", ""]),
];

/// Extension to language name, by rising extension. Extensions are matched
/// as written.
pub const EXTENSION_MAP: [(&'static str, &'static str); 251] = [
    ("4th", "Forth"),
    ("Dsr", "Visual Basic"),
    ("P", "Prolog"),
    ("R", "R"),
    ("S", "ARM Assembly"),
    ("ada", "Ada"),
    ("adb", "Ada"),
    ("adoc", "AsciiDoc"),
    ("ads", "Ada"),
    ("aria", "Aria"),
    ("as", "ActionScript"),
    ("asciidoc", "AsciiDoc"),
    ("asm", "Assembly"),
    ("awk", "Awk"),
    ("axaml", "AXAML"),
    ("bash", "Bash"),
    ("bat", "Batch"),
    ("bb", "BitBake"),
    ("bbappend", "BitBake"),
    ("bbclass", "BitBake"),
    ("bib", "LaTeX"),
    ("bicep", "Bicep"),
    ("bicepparam", "Bicep"),
    ("bzl", "Bazel"),
    ("c", "C"),
    ("c++", "C++"),
    ("capnp", "Cap'n Proto"),
    ("cbl", "COBOL"),
    ("cc", "C++"),
    ("cfg", "INI"),
    ("civet", "Civet"),
    ("cjs", "JavaScript"),
    ("cl", "Lisp"),
    ("clar", "Clarity"),
    ("clj", "Clojure"),
    ("cljc", "Clojure"),
    ("cljs", "Clojure"),
    ("cls", "LaTeX"),
    ("cmake", "CMake"),
    ("cmd", "Batch"),
    ("cob", "COBOL"),
    ("code-workspace", "VSCode Workspace"),
    ("coffee", "CoffeeScript"),
    ("conf", "INI"),
    ("cpp", "C++"),
    ("cpy", "COBOL"),
    ("cr", "Crystal"),
    ("cs", "C#"),
    ("csproj", "MSBuild"),
    ("css", "CSS"),
    ("csx", "C#"),
    ("cts", "TypeScript"),
    ("cue", "CUE"),
    ("cxx", "C++"),
    ("d", "D"),
    ("dart", "Dart"),
    ("def", "Windows Module Definition"),
    ("dhall", "Dhall"),
    ("di", "D"),
    ("dockerfile", "Dockerfile"),
    ("dpk", "Delphi"),
    ("dpr", "Delphi"),
    ("dtd", "XML"),
    ("edn", "Clojure"),
    ("ejs", "EJS"),
    ("el", "Emacs Lisp"),
    ("elc", "Emacs Lisp"),
    ("elm", "Elm"),
    ("erb", "ERB"),
    ("erl", "Erlang"),
    ("ex", "Elixir"),
    ("exs", "Elixir"),
    ("f", "Fortran"),
    ("f03", "Fortran"),
    ("f08", "Fortran"),
    ("f77", "Fortran"),
    ("f90", "Fortran"),
    ("f95", "Fortran"),
    ("fbs", "FlatBuffers"),
    ("fish", "Fish"),
    ("for", "Fortran"),
    ("forth", "Forth"),
    ("fs", "F#"),
    ("fsi", "F#"),
    ("fsproj", "MSBuild"),
    ("fsscript", "F#"),
    ("fsx", "F#"),
    ("fth", "Forth"),
    ("fun", "Standard ML"),
    ("gawk", "Awk"),
    ("gemspec", "Ruby"),
    ("gleam", "Gleam"),
    ("go", "Go"),
    ("gql", "GraphQL"),
    ("gr", "Grain"),
    ("gradle", "Groovy"),
    ("graphql", "GraphQL"),
    ("groovy", "Groovy"),
    ("gvy", "Groovy"),
    ("gy", "Groovy"),
    ("h", "C Header"),
    ("h++", "C++ Header"),
    ("handlebars", "Handlebars"),
    ("hbs", "Handlebars"),
    ("hcl", "HCL"),
    ("heex", "Elixir"),
    ("hh", "C++ Header"),
    ("hpp", "C++ Header"),
    ("hrl", "Erlang"),
    ("hs", "Haskell"),
    ("htm", "HTML"),
    ("html", "HTML"),
    ("hxx", "C++ Header"),
    ("ini", "INI"),
    ("inl", "C++ Header"),
    ("ipp", "C++ Header"),
    ("ism", "InstallShield"),
    ("iss", "InstallShield"),
    ("j2", "Jinja2"),
    ("java", "Java"),
    ("jinja", "Jinja2"),
    ("jinja2", "Jinja2"),
    ("jl", "Julia"),
    ("js", "JavaScript"),
    ("json", "JSON"),
    ("json5", "JSON5"),
    ("jsonnet", "Jsonnet"),
    ("jsx", "JSX"),
    ("just", "Just"),
    ("kdl", "KDL"),
    ("kt", "Kotlin"),
    ("kts", "Kotlin"),
    ("latex", "LaTeX"),
    ("leex", "Elixir"),
    ("less", "Less"),
    ("lhs", "Haskell"),
    ("libsonnet", "Jsonnet"),
    ("lisp", "Lisp"),
    ("lsp", "Lisp"),
    ("lua", "Lua"),
    ("m", "Objective-C"),
    ("magik", "Magik"),
    ("markdown", "Markdown"),
    ("mat", "MATLAB"),
    ("md", "Markdown"),
    ("meson", "Meson"),
    ("mjs", "JavaScript"),
    ("mk", "Makefile"),
    ("ml", "OCaml"),
    ("mli", "OCaml"),
    ("mm", "Objective-C++"),
    ("move", "Move"),
    ("mts", "TypeScript"),
    ("mysql", "SQL"),
    ("nim", "Nim"),
    ("nimble", "Nim"),
    ("nims", "Nim"),
    ("nix", "Nix"),
    ("odin", "Odin"),
    ("org", "Org"),
    ("pas", "Pascal"),
    ("pgsql", "SQL"),
    ("php", "PHP"),
    ("php3", "PHP"),
    ("php4", "PHP"),
    ("php5", "PHP"),
    ("php7", "PHP"),
    ("phtml", "PHP"),
    ("pl", "Perl"),
    ("plsql", "SQL"),
    ("pm", "Perl"),
    ("pod", "Perl"),
    ("pp", "Pascal"),
    ("pro", "Prolog"),
    ("properties", "Properties"),
    ("props", "MSBuild"),
    ("proto", "Protocol Buffers"),
    ("ps1", "PowerShell"),
    ("psd1", "PowerShell"),
    ("psm1", "PowerShell"),
    ("pxd", "Python"),
    ("py", "Python"),
    ("pyi", "Python"),
    ("pyw", "Python"),
    ("pyx", "Python"),
    ("r", "R"),
    ("rake", "Ruby"),
    ("rb", "Ruby"),
    ("rc", "Windows Resource"),
    ("rc2", "Windows Resource"),
    ("rego", "Rego"),
    ("rkt", "Racket"),
    ("roc", "Roc"),
    ("rs", "Rust"),
    ("rst", "reStructuredText"),
    ("s", "Assembly"),
    ("sass", "Sass"),
    ("sc", "Scala"),
    ("scala", "Scala"),
    ("scm", "Scheme"),
    ("scss", "SCSS"),
    ("sh", "Shell"),
    ("sig", "Standard ML"),
    ("sln", "Visual Studio Solution"),
    ("sml", "Standard ML"),
    ("sol", "Solidity"),
    ("sql", "SQL"),
    ("ss", "Scheme"),
    ("sty", "LaTeX"),
    ("sv", "SystemVerilog"),
    ("svelte", "Svelte"),
    ("svg", "SVG"),
    ("svh", "SystemVerilog"),
    ("swift", "Swift"),
    ("t", "Perl"),
    ("targets", "MSBuild"),
    ("tcl", "Tcl"),
    ("tex", "LaTeX"),
    ("tf", "Terraform"),
    ("tfvars", "Terraform"),
    ("thrift", "Thrift"),
    ("tk", "Tcl"),
    ("toml", "TOML"),
    ("ts", "TypeScript"),
    ("tsx", "TSX"),
    ("txt", "Text"),
    ("uss", "USS"),
    ("uxml", "UXML"),
    ("v", "Verilog"),
    ("vb", "Visual Basic"),
    ("vbproj", "MSBuild"),
    ("vbs", "Visual Basic"),
    ("vcxproj", "MSBuild"),
    ("vhd", "VHDL"),
    ("vhdl", "VHDL"),
    ("vim", "Vim Script"),
    ("vimrc", "Vim Script"),
    ("vue", "Vue"),
    ("vv", "V"),
    ("vy", "Vyper"),
    ("wast", "WebAssembly"),
    ("wat", "WebAssembly"),
    ("xhtml", "HTML"),
    ("xml", "XML"),
    ("xsd", "XML"),
    ("xsl", "XML"),
    ("xslt", "XML"),
    ("yaml", "YAML"),
    ("yml", "YAML"),
    ("zig", "Zig"),
    ("zsh", "Zsh"),
];

/// Full file name to language name, by rising file name.
pub const FILENAME_MAP: [(&'static str, &'static str); 57] = [
    (".bash_aliases", "Bash"),
    (".bash_profile", "Bash"),
    (".bashrc", "Bash"),
    (".emacs", "Emacs Lisp"),
    (".eslintrc", "JSON"),
    (".gvimrc", "Vim Script"),
    (".justfile", "Just"),
    (".prettierrc", "JSON"),
    (".profile", "Shell"),
    (".vimrc", "Vim Script"),
    (".zprofile", "Zsh"),
    (".zshenv", "Zsh"),
    (".zshrc", "Zsh"),
    ("Appfile", "Ruby"),
    ("BUILD", "Bazel"),
    ("BUILD.bazel", "Bazel"),
    ("Berksfile", "Ruby"),
    ("CMakeLists.txt", "CMake"),
    ("Cargo.lock", "TOML"),
    ("Cargo.toml", "TOML"),
    ("Containerfile", "Dockerfile"),
    ("Dangerfile", "Ruby"),
    ("Dockerfile", "Dockerfile"),
    ("Fastfile", "Ruby"),
    ("GNUmakefile", "Makefile"),
    ("Gemfile", "Ruby"),
    ("Guardfile", "Ruby"),
    ("Justfile", "Just"),
    ("Makefile", "Makefile"),
    ("Podfile", "Ruby"),
    ("Rakefile", "Ruby"),
    ("Vagrantfile", "Ruby"),
    ("WORKSPACE", "Bazel"),
    ("WORKSPACE.bazel", "Bazel"),
    ("_vimrc", "Vim Script"),
    ("compose.yaml", "Docker Compose"),
    ("compose.yml", "Docker Compose"),
    ("config.fish", "Fish"),
    ("default.nix", "Nix"),
    ("docker-compose.yaml", "Docker Compose"),
    ("docker-compose.yml", "Docker Compose"),
    ("dockerfile", "Dockerfile"),
    ("flake.lock", "JSON"),
    ("flake.nix", "Nix"),
    ("go.mod", "Go"),
    ("go.sum", "Go"),
    ("jsconfig.json", "JSON"),
    ("justfile", "Just"),
    ("makefile", "Makefile"),
    ("meson.build", "Meson"),
    ("meson_options.txt", "Meson"),
    ("package-lock.json", "JSON"),
    ("package.json", "JSON"),
    ("poetry.lock", "TOML"),
    ("pyproject.toml", "TOML"),
    ("shell.nix", "Nix"),
    ("tsconfig.json", "JSON"),
];

} // verus!
