//! What the tools share promises: that ordinary searches are scored as the matcher scores
//! them, where files are looked for, and how text is made safe to show.

use vstd::prelude::*;
use crate::base::completions::{
    counts, file_name, last_counting, shell_at, Shell,
};
use crate::base::fuzzy::{
    accented, fuzzy_indices, fuzzy_score, match_of, misfolds, pattern_words, picked, score_of, scorable,
    text_letters, unaccented, word_scorable,
};
use crate::base::sanitize::{shown_char, shown_in_lines_char};
use crate::base::sqlite::fits;
use crate::base::xdg::{
    base_dir, below, cache_base, cache_dir, config_base, config_dir, config_name, data_base,
    runtime_base, share_dir, tmp_dir, variable_of, Environment, NoBase,
};
use crate::text::{free_of, lemma_last_piece, pieces};

verus! {

// ---- matching ----------------------------------------------------------------------------

/// A search in words without accents, none of them very long, is scored by the matcher on
/// every text that the machine can hold the work for, and the characters that it matched
/// are those that the matcher tells of.
pub proof fn ordinary_searches_are_scored(query: Seq<char>, hay: Seq<char>)
    requires
        query.len() <= 0x0420_0000,
        text_letters(hay).len() <= 0xffff_ffff,
        forall|i: int|
            0 <= i < pattern_words(query).len() ==> (#[trigger] pattern_words(query)[i]).1.len()
                <= 2520 && pattern_words(query)[i].1.len() * text_letters(hay).len() <= usize::MAX,
        forall|i: int, j: int|
            0 <= i < pattern_words(query).len() && 0 <= j < pattern_words(query)[i].1.len()
                ==> unaccented(#[trigger] pattern_words(query)[i].1[j])
                == pattern_words(query)[i].1[j],
    ensures
        score_of(query, hay) == fuzzy_score(query, hay),
        match_of(query, hay) == fuzzy_indices(query, hay),
{
    let words = pattern_words(query);
    let h = text_letters(hay);
    assert forall|i: int| 0 <= i < words.len() implies word_scorable(
        (#[trigger] words[i]).0,
        words[i].1,
        h,
    ) by {
        let w = words[i].1;
        assert(w.len() <= 2520);
        assert(!accented(w)) by {
            if accented(w) {
                let j = choose|j: int| 0 <= j < w.len() && unaccented(#[trigger] w[j]) != w[j];
                assert(pattern_words(query)[i].1[j] == w[j]);
            }
        }
        assert(!misfolds(w, h));
    }
    assert(scorable(query, hay));
}

// ---- text that is shown --------------------------------------------------------------------

/// A control character is shown as a caret and the letter that it is typed with; the end of
/// a line as an arrow and a tab as a space, unless lines are kept.
pub proof fn control_characters_are_shown(c: char)
    ensures
        c < ' ' && c != '\n' && c != '\t' ==> shown_char(c).len() == 2 && shown_char(c)[0] == '^'
            && shown_char(c)[1] as int == c as int + 64,
        shown_char('\n') == seq!['↵'],
        shown_char('\t') == seq![' '],
        shown_char('\u{7f}') == seq!['^', '?'],
        '\u{80}' <= c <= '\u{9f}' ==> shown_char(c) == seq!['\u{fffd}'],
        ' ' <= c <= '~' || c > '\u{9f}' ==> shown_char(c) == seq![c],
        shown_in_lines_char('\n') == seq!['\n'],
        shown_in_lines_char('\t') == seq!['\t'],
        c != '\n' && c != '\t' ==> shown_in_lines_char(c) == shown_char(c),
{
}

// ---- directories -----------------------------------------------------------------------------

/// A directory that the environment names is taken as it is named; otherwise it lies in the
/// home directory, under its usual name.
pub proof fn directories_are_named_or_lie_at_home(
    var: Option<Seq<u8>>,
    home: Seq<u8>,
    dir: Seq<u8>,
)
    requires
        home.len() > 0,
        home.last() != 0x2f,
        dir.len() > 0,
        dir[0] != 0x2f,
    ensures
        var is Some ==> base_dir(var, Some(home), dir) == var,
        base_dir(None, Some(home), dir) == Some(home + seq![0x2f] + dir),
        base_dir(None, None, dir) is None,
{
    assert(home.push(0x2f) + dir == home + seq![0x2f] + dir);
}

/// Each directory is named by its own variable.
pub proof fn each_directory_has_its_variable(env: Environment, p: Vec<u8>)
    ensures
        env.xdg_data_home == Some(p) ==> data_base(env) == Some(p@),
        env.xdg_config_home == Some(p) ==> config_base(env) == Some(p@),
        env.xdg_cache_home == Some(p) ==> cache_base(env) == Some(p@),
        env.xdg_runtime_dir == Some(p) ==> runtime_base(env) == p@,
        env.xdg_runtime_dir is None ==> runtime_base(env) == tmp_dir(),
        env.xdg_data_home is None && env.home == Some(p) ==> data_base(env) == Some(
            below(p@, share_dir()),
        ),
        env.xdg_config_home is None && env.home == Some(p) ==> config_base(env) == Some(
            below(p@, config_dir()),
        ),
        env.xdg_cache_home is None && env.home == Some(p) ==> cache_base(env) == Some(
            below(p@, cache_dir()),
        ),
{
}

/// Whether the bytes `b` spell the text `s`.
pub open spec fn spells(b: Seq<u8>, s: Seq<char>) -> bool {
    b.len() == s.len() && forall|i: int| 0 <= i < b.len() ==> (#[trigger] b[i]) as int == s[i] as int
}

/// The usual names of the directories and of the configuration.
pub proof fn usual_names()
    ensures
        spells(share_dir(), ".local/share"@),
        spells(config_dir(), ".config"@),
        spells(cache_dir(), ".cache"@),
        spells(tmp_dir(), "/tmp"@),
        spells(config_name(), "config.toml"@),
{
    reveal_strlit(".local/share");
    reveal_strlit(".config");
    reveal_strlit(".cache");
    reveal_strlit("/tmp");
    reveal_strlit("config.toml");
}

// ---- shells ----------------------------------------------------------------------------------

/// The name of a file is what stands behind the last slash of its path.
pub proof fn files_are_named_behind_the_last_slash(dir: Seq<char>, name: Seq<char>)
    requires
        free_of(name, '/'),
        name.len() > 0,
        name != "."@,
        name != ".."@,
    ensures
        file_name(dir + seq!['/'] + name) == Some(name),
        file_name(name) == Some(name),
        file_name(dir + seq!['/'] + name + seq!['/']) == Some(name),
{
    lemma_last_piece(dir, '/', name);
    let path = dir + seq!['/'] + name;
    let e = Seq::<char>::empty();
    lemma_last_piece(path, '/', e);
    assert(path + seq!['/'] + e == path + seq!['/']);
    crate::text::lemma_one_piece(name, '/');
    let p = pieces(path + seq!['/'], '/');
    assert(p == pieces(dir, '/').push(name).push(e));
    assert(!counts(p[p.len() - 1]));
    assert(counts(p[p.len() - 2]));
    assert(last_counting(p, p.len() as int) == last_counting(p, p.len() - 1));
}

/// The shell is told by the name of its program, wherever that lies.
pub proof fn shells_are_told_by_their_program(dir: Seq<char>)
    ensures
        shell_at(Some(dir + seq!['/'] + "bash"@)) == Some(Shell::Bash),
        shell_at(Some(dir + seq!['/'] + "zsh"@)) == Some(Shell::Zsh),
        shell_at(Some(dir + seq!['/'] + "fish"@)) == Some(Shell::Fish),
        shell_at(Some(dir + seq!['/'] + "elvish"@)) == Some(Shell::Elvish),
        shell_at(Some(dir + seq!['/'] + "powershell"@)) == Some(Shell::PowerShell),
        shell_at(Some(dir + seq!['/'] + "sh"@)) is None,
        shell_at(None) is None,
{
    reveal_strlit("bash");
    reveal_strlit("zsh");
    reveal_strlit("fish");
    reveal_strlit("elvish");
    reveal_strlit("powershell");
    reveal_strlit("sh");
    reveal_strlit(".");
    reveal_strlit("..");
    assert("bash"@.len() == 4 && "fish"@.len() == 4 && "bash"@[0] == 'b' && "fish"@[0] == 'f');
    assert("zsh"@.len() == 3 && "elvish"@.len() == 6 && "powershell"@.len() == 10);
    assert("sh"@.len() == 2 && "."@.len() == 1 && ".."@.len() == 2 && ".."@[0] == '.');
    assert("sh"@[0] == 's');
    files_are_named_behind_the_last_slash(dir, "bash"@);
    files_are_named_behind_the_last_slash(dir, "zsh"@);
    files_are_named_behind_the_last_slash(dir, "fish"@);
    files_are_named_behind_the_last_slash(dir, "elvish"@);
    files_are_named_behind_the_last_slash(dir, "powershell"@);
    files_are_named_behind_the_last_slash(dir, "sh"@);
}

// ---- the schema ------------------------------------------------------------------------------

/// A database is taken where it has the version of the program or is new, and no other is.
pub proof fn only_fitting_databases_are_taken(found: i32, has_tables: bool, version: i32)
    ensures
        fits(version, has_tables, version),
        fits(0, false, version),
        found != version && found != 0 ==> !fits(found, has_tables, version),
        found != version && has_tables ==> !fits(found, has_tables, version),
{
}

/// Where a directory is not known, the variable that would name it is told.
pub proof fn missing_directories_name_their_variable()
    ensures
        variable_of(NoBase::Data) == "XDG_DATA_HOME"@,
        variable_of(NoBase::Config) == "XDG_CONFIG_HOME"@,
        variable_of(NoBase::Cache) == "XDG_CACHE_HOME"@,
{
}

/// A character is picked exactly where the matcher tells its place.
pub proof fn told_places_are_picked(indices: Seq<u32>, n: nat, i: int)
    requires
        0 <= i < n,
    ensures
        picked(indices, n).len() == n,
        picked(indices, n)[i] <==> exists|j: int|
            0 <= j < indices.len() && #[trigger] indices[j] == i,
{
}

} // verus!
