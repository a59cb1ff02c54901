//! What holds of the terminal whatever state it is in.

use crate::filesystem::parent_segment;
use crate::scrollback::{colored_lines, BufferModel, LineModel};
use crate::text::{
    color_of, join_words, lemma_join_one_line, lemma_lines_of_one_line, lemma_tokens_clean,
    lemma_trimmed_one_line, lines, one_line, tokens, trimmed,
};
use crate::ui::commands::{
    command_kind, CommandKind, COLOR_CHANGED, DIRECTORY_NOT_FOUND, ERROR_COLOR, FILE_NOT_FOUND,
    HELP, INVALID_COLOR, NO_CURRENT_DIRECTORY, PROMPT, UNKNOWN_COMMAND, USAGE_CAT, USAGE_CD,
    USAGE_COLOR, USAGE_MKDIR, USAGE_TOUCH, VERSION,
};
use crate::filesystem_laws::lemma_current_stays;
use crate::ui::model::{listed, listing_of, TerminalModel};
use vstd::prelude::*;

verus! {

/// The buffer after one more line: the line is appended, the oldest
/// lines go where a limit asks for it, and the scroll offset stays within
/// bounds.
pub open spec fn with_line(b: BufferModel, text: Seq<char>, color: u32) -> BufferModel {
    b.with_lines(b.kept(b.lines.push(LineModel { text, color })))
}

/// Printing a text without line breaks, ended by one, appends exactly one
/// line.
pub proof fn lemma_print_one_line(b: BufferModel, text: Seq<char>, color: u32)
    requires
        one_line(text),
    ensures
        b.appended(text.push('\n'), color) == with_line(b, text, color),
{
    lemma_lines_of_one_line(text);
    assert(colored_lines(text.push('\n'), color) =~= seq![LineModel { text, color }]);
    assert(b.lines + seq![LineModel { text, color }] =~= b.lines.push(LineModel { text, color }));
}

/// `cd ..` at the root changes nothing.
pub proof fn lemma_cd_parent_at_root(t: TerminalModel, words: Seq<Seq<char>>)
    requires
        words.len() >= 2,
        words[1] == parent_segment(),
        t.fs.path.len() == 0,
    ensures
        t.cd(words) == t,
{
}

/// `cd` to a directory that is not there leaves the tree and the current
/// path as they were and prints one line that says so.
pub proof fn lemma_cd_missing(t: TerminalModel, words: Seq<Seq<char>>)
    requires
        words.len() >= 2,
        one_line(words[1]),
        !t.fs.can_enter(words[1]),
    ensures
        t.cd(words) == (TerminalModel {
            buffer: with_line(t.buffer, DIRECTORY_NOT_FOUND@ + words[1], ERROR_COLOR),
            ..t
        }),
{
    let text = DIRECTORY_NOT_FOUND@ + words[1];
    reveal_strlit("Directory not found: ");
    assert forall|i: int| 0 <= i < text.len() implies #[trigger] text[i] != '\n' by {
        if i >= DIRECTORY_NOT_FOUND@.len() {
            assert(text[i] == words[1][i - DIRECTORY_NOT_FOUND@.len()]);
        }
    }
    assert(DIRECTORY_NOT_FOUND@ + words[1].push('\n') =~= text.push('\n'));
    lemma_print_one_line(t.buffer, text, ERROR_COLOR);
}

/// `echo` appends exactly one line, whatever its arguments: the
/// arguments joined by single spaces, in the current colour. Nothing else
/// changes.
pub proof fn lemma_echo_one_line(t: TerminalModel, line: Seq<char>)
    requires
        tokens(line).len() > 0,
        command_kind(tokens(line)[0]) == Some(CommandKind::Echo),
    ensures
        t.dispatched(line) == (TerminalModel {
            buffer: with_line(t.buffer, join_words(tokens(line).skip(1)), t.color),
            ..t
        }),
{
    let words = tokens(line);
    let said = words.skip(1);
    assert forall|i: int| 0 <= i < said.len() implies one_line(#[trigger] said[i]) by {
        lemma_tokens_clean(line, i + 1);
    }
    lemma_join_one_line(said);
    lemma_print_one_line(t.buffer, join_words(said), t.color);
}

/// A command that the table does not know appends exactly one line, which
/// names the line as typed, without the white space around it. Nothing
/// else changes.
pub proof fn lemma_unknown_one_line(t: TerminalModel, line: Seq<char>)
    requires
        one_line(line),
        tokens(line).len() > 0,
        command_kind(tokens(line)[0]) is None,
    ensures
        t.dispatched(line) == (TerminalModel {
            buffer: with_line(t.buffer, UNKNOWN_COMMAND@ + trimmed(line), ERROR_COLOR),
            ..t
        }),
{
    let text = UNKNOWN_COMMAND@ + trimmed(line);
    reveal_strlit("Unknown command: ");
    lemma_trimmed_one_line(line);
    assert forall|i: int| 0 <= i < text.len() implies #[trigger] text[i] != '\n' by {
        if i >= UNKNOWN_COMMAND@.len() {
            assert(text[i] == trimmed(line)[i - UNKNOWN_COMMAND@.len()]);
        }
    }
    assert(UNKNOWN_COMMAND@ + trimmed(line).push('\n') =~= text.push('\n'));
    lemma_print_one_line(t.buffer, text, ERROR_COLOR);
}

/// `color` with an argument that names no colour prints one error line
/// and leaves the colour as it was; with one that names a colour, that is
/// the colour of what `echo` prints next.
pub proof fn lemma_color(t: TerminalModel, words: Seq<Seq<char>>, said: Seq<Seq<char>>)
    requires
        words.len() >= 2,
    ensures
        color_of(words[1]) is None ==> t.recolor(words) == (TerminalModel {
            buffer: with_line(
                t.buffer,
                "Invalid color format. Use hex (e.g., 0xFF0000)"@,
                ERROR_COLOR,
            ),
            ..t
        }),
        color_of(words[1]) matches Some(c) ==> t.recolor(words).color == c && t.recolor(
            words,
        ).echo(said).buffer == t.recolor(words).buffer.appended(
            join_words(said.skip(1)).push('\n'),
            c,
        ),
{
    if color_of(words[1]) is None {
        let text = "Invalid color format. Use hex (e.g., 0xFF0000)"@;
        reveal_strlit("Invalid color format. Use hex (e.g., 0xFF0000)");
        reveal_strlit("Invalid color format. Use hex (e.g., 0xFF0000)\n");
        assert(INVALID_COLOR@ =~= text.push('\n'));
        assert(one_line(text));
        lemma_print_one_line(t.buffer, text, ERROR_COLOR);
    }
}


/// A text that is not empty has at least one line.
pub proof fn lemma_text_has_a_line(text: Seq<char>)
    requires
        text.len() > 0,
    ensures
        lines(text).len() >= 1,
{
}

/// No failure is silent, and none does harm: a command that fails prints
/// a text that is not empty, in the colour of errors, and changes nothing
/// but the scrollback.
pub proof fn lemma_failure_is_shown(t: TerminalModel, line: Seq<char>)
    requires
        t.outcome(line) is Failed,
    ensures
        exists|text: Seq<char>|
            text.len() > 0 && #[trigger] t.printed(text, ERROR_COLOR) == t.dispatched(line),
{
    let words = tokens(line);
    reveal_strlit("Usage: cd <directory>\n");
    reveal_strlit("Usage: mkdir <directory>\n");
    reveal_strlit("Usage: touch <filename>\n");
    reveal_strlit("Usage: cat [file]\n");
    reveal_strlit("Usage: color <hex>\n");
    reveal_strlit("File not found\n");
    reveal_strlit("Current directory not found\n");
    reveal_strlit("Invalid color format. Use hex (e.g., 0xFF0000)\n");
    let text = match command_kind(words[0]) {
        Some(CommandKind::Cd) => if words.len() < 2 {
            USAGE_CD@
        } else {
            DIRECTORY_NOT_FOUND@ + words[1].push('\n')
        },
        Some(CommandKind::Ls) => NO_CURRENT_DIRECTORY@,
        Some(CommandKind::Mkdir) => if words.len() < 2 {
            USAGE_MKDIR@
        } else {
            NO_CURRENT_DIRECTORY@
        },
        Some(CommandKind::Touch) => if words.len() < 2 {
            USAGE_TOUCH@
        } else {
            NO_CURRENT_DIRECTORY@
        },
        Some(CommandKind::Cat) => if words.len() < 2 {
            USAGE_CAT@
        } else {
            FILE_NOT_FOUND@
        },
        Some(CommandKind::Color) => if words.len() < 2 {
            USAGE_COLOR@
        } else {
            INVALID_COLOR@
        },
        Some(_) => Seq::empty(),
        None => UNKNOWN_COMMAND@ + trimmed(line).push('\n'),
    };
    assert(text.len() > 0);
    assert(t.printed(text, ERROR_COLOR) == t.dispatched(line));
}


/// Whatever is done to a scrollback that is in order leaves it in order,
/// for the same screen and with the same limit.
pub proof fn lemma_buffer_stays_wf(
    b: BufferModel,
    text: Seq<char>,
    color: u32,
    c: char,
    delta: int,
)
    requires
        b.wf(),
    ensures
        same_screen(b, b.appended(text, color)),
        same_screen(b, b.echoed(c, color)),
        same_screen(b, b.erased()),
        same_screen(b, b.retyped(text, color)),
        same_screen(b, b.cleared()),
        same_screen(b, b.scrolled(delta)),
{
}

/// `after` is in order and is a scrollback for the same screen, with the
/// same limit, as `before`.
pub open spec fn same_screen(before: BufferModel, after: BufferModel) -> bool {
    &&& after.wf()
    &&& after.visible_rows == before.visible_rows
    &&& after.capacity == before.capacity
}

proof fn lemma_listed_stays_wf(b: BufferModel, entries: Seq<(Seq<char>, bool)>, color: u32)
    requires
        b.wf(),
    ensures
        same_screen(b, listed(b, entries, color)),
    decreases entries.len(),
{
    if entries.len() > 0 {
        lemma_listed_stays_wf(b, entries.drop_last(), color);
    }
}

/// `after` is a state the terminal can be in, with the history, the mode
/// and the place on the surface that `before` had.
pub open spec fn same_session(before: TerminalModel, after: TerminalModel) -> bool {
    &&& after.wf()
    &&& after.history == before.history
    &&& after.history_index == before.history_index
    &&& after.mode == before.mode
    &&& after.x == before.x
    &&& after.y == before.y
    &&& after.width == before.width
    &&& after.height == before.height
}

proof fn lemma_print_keeps_wf(t: TerminalModel, text: Seq<char>, color: u32)
    requires
        t.wf(),
    ensures
        same_session(t, t.printed(text, color)),
{
    lemma_buffer_stays_wf(t.buffer, text, color, ' ', 0);
}

proof fn lemma_cd_keeps_wf(t: TerminalModel, words: Seq<Seq<char>>)
    requires
        t.wf(),
    ensures
        same_session(t, t.cd(words)),
{
    if words.len() < 2 {
        lemma_print_keeps_wf(t, USAGE_CD@, ERROR_COLOR);
    } else if t.fs.can_enter(words[1]) {
        lemma_current_stays(t.fs, t.fs.current()->0, words[1]);
    } else {
        lemma_print_keeps_wf(t, DIRECTORY_NOT_FOUND@ + words[1].push('\n'), ERROR_COLOR);
    }
}

proof fn lemma_ls_keeps_wf(t: TerminalModel)
    requires
        t.wf(),
    ensures
        same_session(t, t.ls()),
{
    lemma_listed_stays_wf(t.buffer, listing_of(t.fs.current()->0), t.color);
}

proof fn lemma_make_keeps_wf(t: TerminalModel, words: Seq<Seq<char>>)
    requires
        t.wf(),
    ensures
        same_session(t, t.mkdir(words)),
        same_session(t, t.touch(words)),
{
    if words.len() < 2 {
        lemma_print_keeps_wf(t, USAGE_MKDIR@, ERROR_COLOR);
        lemma_print_keeps_wf(t, USAGE_TOUCH@, ERROR_COLOR);
    } else {
        let d = t.fs.current()->0;
        lemma_current_stays(t.fs, d.with_dir(words[1]), words[1]);
        lemma_current_stays(t.fs, d.with_file(words[1], Seq::empty()), words[1]);
    }
}

proof fn lemma_cat_keeps_wf(t: TerminalModel, words: Seq<Seq<char>>)
    requires
        t.wf(),
    ensures
        same_session(t, t.cat(words)),
{
    if words.len() < 2 {
        lemma_print_keeps_wf(t, USAGE_CAT@, ERROR_COLOR);
    } else {
        let d = t.fs.current()->0;
        if d.files.contains_key(words[1]) {
            lemma_print_keeps_wf(t, d.files[words[1]], t.color);
        } else {
            lemma_print_keeps_wf(t, FILE_NOT_FOUND@, ERROR_COLOR);
        }
    }
}

proof fn lemma_recolor_keeps_wf(t: TerminalModel, words: Seq<Seq<char>>)
    requires
        t.wf(),
    ensures
        same_session(t, t.recolor(words)),
{
    if words.len() < 2 {
        lemma_print_keeps_wf(t, USAGE_COLOR@, ERROR_COLOR);
    } else {
        match color_of(words[1]) {
            Some(c) => {
                lemma_print_keeps_wf(TerminalModel { color: c, ..t }, COLOR_CHANGED@, c);
            },
            None => {
                lemma_print_keeps_wf(t, INVALID_COLOR@, ERROR_COLOR);
            },
        }
    }
}

/// The dispatcher leaves the terminal in a state it can be in, whatever
/// the line, and leaves the history and the mode alone.
pub proof fn lemma_dispatch_keeps_wf(t: TerminalModel, line: Seq<char>)
    requires
        t.wf(),
    ensures
        same_session(t, t.dispatched(line)),
{
    let words = tokens(line);
    if words.len() > 0 {
        match command_kind(words[0]) {
            Some(CommandKind::Cd) => lemma_cd_keeps_wf(t, words),
            Some(CommandKind::Ls) => lemma_ls_keeps_wf(t),
            Some(CommandKind::Mkdir) => lemma_make_keeps_wf(t, words),
            Some(CommandKind::Touch) => lemma_make_keeps_wf(t, words),
            Some(CommandKind::Cat) => lemma_cat_keeps_wf(t, words),
            Some(CommandKind::Echo) => lemma_print_keeps_wf(
                t,
                join_words(words.skip(1)).push('\n'),
                t.color,
            ),
            Some(CommandKind::Color) => lemma_recolor_keeps_wf(t, words),
            Some(CommandKind::Clear) => {},
            Some(CommandKind::Help) => lemma_print_keeps_wf(t, HELP@, t.color),
            Some(CommandKind::Version) => lemma_print_keeps_wf(t, VERSION@, t.color),
            None => lemma_print_keeps_wf(
                t,
                UNKNOWN_COMMAND@ + trimmed(line).push('\n'),
                ERROR_COLOR,
            ),
        }
    }
}

/// Running the command line leaves the terminal in a state it can be in.
pub proof fn lemma_execute_keeps_wf(t: TerminalModel)
    requires
        t.wf(),
    ensures
        t.executed().wf(),
{
    lemma_dispatch_keeps_wf(t, t.command);
    let after = t.dispatched(t.command);
    lemma_print_keeps_wf(after, PROMPT@, after.color);
}

/// No key leaves the terminal in a state it cannot be in.
pub proof fn lemma_key_keeps_wf(t: TerminalModel, c: char)
    requires
        t.wf(),
    ensures
        t.key_pressed(c).wf(),
{
    lemma_execute_keeps_wf(t);
}

/// No pointer sample leaves the terminal in a state it cannot be in.
pub proof fn lemma_pointer_keeps_wf(t: TerminalModel, px: i32, py: i32, buttons: u8)
    requires
        t.wf(),
    ensures
        t.pointer_moved(px, py, buttons).wf(),
{
}

/// Nothing that is pasted leaves the terminal in a state it cannot be in.
pub proof fn lemma_paste_keeps_wf(t: TerminalModel, text: Seq<char>)
    requires
        t.wf(),
    ensures
        t.pasted(text).wf(),
    decreases text.len(),
{
    if text.len() > 0 {
        lemma_paste_keeps_wf(t, text.drop_last());
        lemma_execute_keeps_wf(t.pasted(text.drop_last()));
    }
}

} // verus!
