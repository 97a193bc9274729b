//! Restoring: whose save a save is, and how a restored screen meets the one it is shown on.

use crate::machine::{smaller, CharCell, CharGrid, Machine, V6Windows};
use crate::session::{byte_range, restored_cols, GameSession};
use crate::text::{same_chars, to_chars};
use crate::turn::InputKind;
use vstd::prelude::*;

verus! {

// ── Saves ─────────────────────────────────────────────────────────────────────
/// The engine that saves of this interpreter name.
pub const ZMACHINE_ENGINE: &'static str = "zmachine";

/// The format of this interpreter's saves.
pub const ZMACHINE_SAVE_FORMAT: u32 = 1;

/// A saved game: the engine that it belongs to, the format and the bytes.
#[derive(Debug)]
pub struct EngineSave {
    pub engine: String,
    pub format: u32,
    pub bytes: Vec<u8>,
}

/// Why a save cannot be restored.
#[derive(Debug)]
pub enum EngineError {
    /// It belongs to another engine.
    EngineMismatch { expected: String, found: String },
    /// The engine cannot read it.
    BadSave(String),
}

/// Whether two texts are the same.
pub(crate) fn same_text(a: &str, b: &str) -> (r: bool)
    ensures
        r == (a@ == b@),
{
    same_chars(&to_chars(a), &to_chars(b))
}

impl EngineSave {
    /// A save of an engine.
    pub fn new(engine: &str, format: u32, bytes: Vec<u8>) -> (r: EngineSave)
        ensures
            r.engine@ == engine@,
            r.format == format,
            r.bytes == bytes,
    {
        EngineSave { engine: engine.to_owned(), format, bytes }
    }

    /// Tests whether the save belongs to an engine.
    pub fn is_engine(&self, engine: &str) -> (r: bool)
        ensures
            r == (self.engine@ == engine@),
    {
        same_text(self.engine.as_str(), engine)
    }

    /// Refuses a save that belongs to another engine, naming both.
    pub fn check_engine(&self, expected: &str) -> (r: Result<(), EngineError>)
        ensures
            r is Ok <==> self.engine@ == expected@,
            r matches Err(e) ==> (e matches EngineError::EngineMismatch { expected: a, found: b }
                && a@ == expected@ && b@ == self.engine@),
    {
        if self.is_engine(expected) {
            Ok(())
        } else {
            Err(
                EngineError::EngineMismatch {
                    expected: expected.to_owned(),
                    found: self.engine.as_str().to_owned(),
                },
            )
        }
    }
}

// ── Grids of characters ───────────────────────────────────────────────────────
/// A character that shows nothing.
pub open spec fn blank_cell() -> CharCell {
    CharCell { ch: ' ', style: 0, fg: 0, bg: 0 }
}

/// A row of another width: its characters from the left, as many as fit, and blanks behind
/// them.
pub open spec fn fitted_row(s: Seq<CharCell>, cols: u16) -> Seq<CharCell> {
    Seq::new(
        cols as nat,
        |c: int|
            if c < s.len() {
                s[c]
            } else {
                blank_cell()
            },
    )
}

/// The first `n` rows of a grid, each fitted to another width.
pub open spec fn fitted_rows(cells: Seq<CharCell>, from: u16, to: u16, n: nat) -> Seq<CharCell>
    decreases n,
{
    if n == 0 {
        seq![]
    } else {
        fitted_rows(cells, from, to, (n - 1) as nat) + fitted_row(
            cells.subrange((n - 1) * from as int, n * from as int),
            to,
        )
    }
}

impl CharGrid {
    /// There is a character for every row and column.
    pub open spec fn wf(&self) -> bool {
        self.cells@.len() == self.rows * self.cols
    }

    /// Blanks the grid.
    pub fn blank(&mut self)
        requires
            old(self).wf(),
        ensures
            final(self).wf(),
            final(self).rows == old(self).rows,
            final(self).cols == old(self).cols,
            final(self).cells@ == Seq::new(old(self).cells@.len(), |i: int| blank_cell()),
    {
        let mut i: usize = 0;
        while i < self.cells.len()
            invariant
                i <= self.cells@.len(),
                self.cells@.len() == old(self).cells@.len(),
                self.rows == old(self).rows,
                self.cols == old(self).cols,
                forall|j: int| 0 <= j < i ==> #[trigger] self.cells@[j] == blank_cell(),
            decreases self.cells.len() - i,
        {
            self.cells.set(i, CharCell { ch: ' ', style: 0, fg: 0, bg: 0 });
            i = i + 1;
        }
        assert(self.cells@ =~= Seq::new(old(self).cells@.len(), |i: int| blank_cell()));
    }

    /// Fits the grid to another width: what fits stays, from the left; new columns are
    /// blank.
    pub fn refit(&mut self, cols: u16)
        requires
            old(self).wf(),
        ensures
            final(self).wf(),
            final(self).rows == old(self).rows,
            final(self).cols == cols,
            final(self).cells@ == fitted_rows(
                old(self).cells@,
                old(self).cols,
                cols,
                old(self).rows as nat,
            ),
    {
        let from: u16 = self.cols;
        let rows: u16 = self.rows;
        let total: usize = self.cells.len();
        let ghost cells0 = self.cells@;
        let mut out: Vec<CharCell> = Vec::new();
        let mut row: u16 = 0;
        let mut at: usize = 0;
        assert(out@ =~= fitted_rows(cells0, from, cols, 0));
        assert(0 * from == 0 && 0 * cols == 0);
        while row < rows
            invariant
                row <= rows,
                self.cells@ == cells0,
                self.cols == from,
                self.rows == rows,
                cells0.len() == rows * from,
                total == cells0.len(),
                at == row * from,
                out@ == fitted_rows(cells0, from, cols, row as nat),
                out@.len() == row * cols,
            decreases rows - row,
        {
            let ghost done = out@;
            assert(at + from <= cells0.len()) by (nonlinear_arith)
                requires
                    row < rows,
                    at == row * from,
                    cells0.len() == rows * from,
            ;
            assert((row + 1) * from == at + from) by (nonlinear_arith)
                requires
                    at == row * from,
            ;
            let ghost src = cells0.subrange(row * from as int, (row + 1) * from as int);
            assert(src.len() == from);
            let mut c: u16 = 0;
            assert(out@ =~= done + fitted_row(src, cols).take(0));
            while c < cols
                invariant
                    c <= cols,
                    row < rows,
                    self.cells@ == cells0,
                    self.cols == from,
                    self.rows == rows,
                    total == cells0.len(),
                    at + from <= total,
                    src == cells0.subrange(at as int, at + from),
                    src.len() == from,
                    out@ == done + fitted_row(src, cols).take(c as int),
                decreases cols - c,
            {
                let cell: CharCell = if c < from {
                    self.cells[at + c as usize]
                } else {
                    CharCell { ch: ' ', style: 0, fg: 0, bg: 0 }
                };
                out.push(cell);
                assert(cell == fitted_row(src, cols)[c as int]);
                assert(fitted_row(src, cols).take(c + 1) =~= fitted_row(src, cols).take(
                    c as int,
                ).push(cell));
                assert(out@ =~= done + fitted_row(src, cols).take(c + 1));
                c = c + 1;
            }
            assert(fitted_row(src, cols).take(c as int) =~= fitted_row(src, cols));
            assert(out@.len() == (row + 1) * cols) by (nonlinear_arith)
                requires
                    out@.len() == done.len() + cols,
                    done.len() == row * cols,
            ;
            at = at + from as usize;
            row = row + 1;
        }
        self.cells = out;
        self.cols = cols;
    }
}

// ── The screen that is declared ───────────────────────────────────────────────
/// The interpreter, after a screen of so many characters is declared to it: the header
/// states it, from version 5 on in units too, and the upper window has its width.
pub open spec fn declared(m: Machine, after: Machine, rows: u8, cols: u8) -> bool {
    &&& after.screen_rows == rows
    &&& after.screen_cols == cols
    &&& after.screen_w_px == (if m.version >= 5 {
        cols as u16
    } else {
        m.screen_w_px
    })
    &&& after.screen_h_px == (if m.version >= 5 {
        rows as u16
    } else {
        m.screen_h_px
    })
    &&& after.cursor_col == (if m.upper.rows > 0 {
        smaller(m.cursor_col as int, cols as int) as u16
    } else {
        m.cursor_col
    })
    &&& after.upper.wf()
    &&& after.upper.rows == m.upper.rows
    &&& after.upper.cols == (if m.upper.rows > 0 {
        cols as u16
    } else {
        m.upper.cols
    })
    &&& after.upper.cells@ == (if m.upper.rows > 0 {
        fitted_rows(m.upper.cells@, m.upper.cols, cols as u16, m.upper.rows as nat)
    } else {
        m.upper.cells@
    })
    &&& after == (Machine {
        screen_rows: after.screen_rows,
        screen_cols: after.screen_cols,
        screen_w_px: after.screen_w_px,
        screen_h_px: after.screen_h_px,
        cursor_col: after.cursor_col,
        upper: after.upper,
        ..m
    })
}

impl Machine {
    /// Declares a screen of so many characters to the interpreter.
    pub fn set_screen_dims(&mut self, rows: u8, cols: u8)
        requires
            old(self).wf(),
            old(self).upper.wf(),
        ensures
            final(self).wf(),
            declared(*old(self), *final(self), rows, cols),
    {
        self.screen_rows = rows;
        self.screen_cols = cols;
        if self.version >= 5 {
            self.screen_w_px = cols as u16;
            self.screen_h_px = rows as u16;
        }
        if self.upper.rows > 0 {
            self.upper.refit(cols as u16);
            if self.cursor_col > cols as u16 {
                self.cursor_col = cols as u16;
            }
        }
    }
}

/// The screen to declare for a pane of the host: its size within a byte. A story of version
/// 6 keeps its own screen of pixels.
pub open spec fn pane_dims(version: u8, rows: u16, cols: u16) -> Option<(u8, u8)> {
    if version == 6 {
        None
    } else {
        Some((byte_range(rows) as u8, byte_range(cols) as u8))
    }
}

/// The screen to declare after a restore: the header's own, but, from version 4 on, no
/// narrower than what the restored game was laid out for. A story of version 6 keeps its
/// own, and a header that states no size is left alone.
pub open spec fn reconciled_dims(m: &Machine, floor_cols: u16) -> Option<(u8, u8)> {
    let floor = byte_range(floor_cols) as u8;
    let cols = if m.version >= 4 && m.screen_cols < floor {
        floor
    } else {
        m.screen_cols
    };
    if m.version != 6 && m.screen_rows > 0 && cols > 0 {
        Some((m.screen_rows, cols))
    } else {
        None
    }
}

/// Declares the screen that a restored game is to be shown on.
fn reconcile_restored_screen_size(m: &mut Machine, floor_cols: u16)
    requires
        old(m).wf(),
        old(m).upper.wf(),
    ensures
        final(m).wf(),
        final(m).upper.wf(),
        match reconciled_dims(&*old(m), floor_cols) {
            Some(d) => declared(*old(m), *final(m), d.0, d.1),
            None => *final(m) == *old(m),
        },
{
    if m.version == 6 {
        return ;
    }
    let rows: u8 = m.screen_rows;
    let mut cols: u8 = m.screen_cols;
    if m.version >= 4 {
        let floor: u8 = if floor_cols < 1 {
            1
        } else if floor_cols > 255 {
            255
        } else {
            floor_cols as u8
        };
        if cols < floor {
            cols = floor;
        }
    }
    if rows > 0 && cols > 0 {
        m.set_screen_dims(rows, cols);
    }
}

/// A saved screen.
#[derive(Debug)]
pub struct ScreenState {
    pub upper: CharGrid,
    pub upper_window_rows: u16,
    pub cursor_row: u16,
    pub cursor_col: u16,
    pub current_window: u8,
    pub v6: Option<V6Windows>,
    pub v6_generation: u64,
    pub input_window: u8,
    pub buffer_mode: bool,
    pub current_fg: u32,
    pub current_bg: u32,
}

impl ScreenState {
    /// The grid is whole, and there is a current window where there are windows.
    pub open spec fn wf(&self) -> bool {
        &&& self.upper.wf()
        &&& self.v6 matches Some(v6) ==> 0 < v6.windows@.len() <= 256 && v6.current
            < v6.windows@.len()
    }

    /// The colours to print in: those of the current window, where there are windows.
    pub open spec fn colours(&self) -> (u32, u32) {
        match self.v6 {
            Some(v6) => (
                v6.windows@[v6.current as int].fg,
                v6.windows@[v6.current as int].bg,
            ),
            None => (self.current_fg, self.current_bg),
        }
    }

    /// The interpreter with the screen in place of its own.
    pub open spec fn on(&self, m: Machine) -> Machine {
        Machine {
            upper: self.upper,
            upper_window_rows: self.upper_window_rows,
            cursor_row: self.cursor_row,
            cursor_col: self.cursor_col,
            current_window: self.current_window,
            v6: self.v6,
            v6_generation: self.v6_generation,
            input_window: self.input_window,
            buffer_mode: self.buffer_mode,
            current_fg: self.colours().0,
            current_bg: self.colours().1,
            ..m
        }
    }
}

/// Puts a saved screen in place of the session's own.
///
/// What the screen holds twice is brought into step: the sink buffers as the screen says,
/// and the colours to print in are those of the current window. The screen that is held
/// goes with the one it showed. The width of the upper window is what the restored game was
/// laid out for; the screen then follows the host's pane, but gets no narrower than that.
pub fn restore_screen(session: &mut GameSession, screen: ScreenState)
    requires
        old(session).wf(),
        screen.wf(),
    ensures
        final(session).wf(),
        final(session).v6_model_memo is None,
        final(session).boot_screen_cols == restored_cols(
            old(session).machine.version,
            old(session).boot_screen_cols,
            screen.upper.cols,
        ),
        match reconciled_dims(&screen.on(old(session).machine), final(session).boot_screen_cols) {
            Some(d) => declared(
                screen.on(old(session).machine),
                final(session).machine,
                d.0,
                d.1,
            ),
            None => final(session).machine == screen.on(old(session).machine),
        },
        final(session).sink.buffering == screen.buffer_mode,
        final(session).sink.text == old(session).sink.text,
        final(session).sink.runs == old(session).sink.runs,
        final(session).sink.cleared_at == old(session).sink.cleared_at,
        *final(session) == (GameSession {
            machine: final(session).machine,
            sink: final(session).sink,
            boot_screen_cols: final(session).boot_screen_cols,
            v6_model_memo: None,
            ..*old(session)
        }),
{
    let ghost m0 = session.machine;
    let restored: u16 = screen.upper.cols;
    session.v6_model_memo = None;
    let (fg, bg) = match &screen.v6 {
        Some(v6) => {
            let w = &v6.windows[v6.current as usize];
            (w.fg, w.bg)
        },
        None => (screen.current_fg, screen.current_bg),
    };
    session.sink.set_buffer_mode(screen.buffer_mode);
    session.machine.upper = screen.upper;
    session.machine.upper_window_rows = screen.upper_window_rows;
    session.machine.cursor_row = screen.cursor_row;
    session.machine.cursor_col = screen.cursor_col;
    session.machine.current_window = screen.current_window;
    session.machine.v6 = screen.v6;
    session.machine.v6_generation = screen.v6_generation;
    session.machine.input_window = screen.input_window;
    session.machine.buffer_mode = screen.buffer_mode;
    session.machine.current_fg = fg;
    session.machine.current_bg = bg;
    assert(session.machine == screen.on(m0));
    session.note_restored_screen_cols(restored);
    let floor: u16 = session.boot_screen_cols;
    reconcile_restored_screen_size(&mut session.machine, floor);
}

impl GameSession {
    /// Declares the host's pane to the interpreter.
    pub fn set_screen_dims(&mut self, rows: u16, cols: u16)
        requires
            old(self).wf(),
            old(self).machine.upper.wf(),
        ensures
            final(self).wf(),
            match pane_dims(old(self).machine.version, rows, cols) {
                Some(d) => declared(old(self).machine, final(self).machine, d.0, d.1),
                None => final(self).machine == old(self).machine,
            },
            *final(self) == (GameSession { machine: final(self).machine, ..*old(self) }),
    {
        if self.machine.version == 6 {
            return ;
        }
        let r: u8 = if rows < 1 {
            1
        } else if rows > 255 {
            255
        } else {
            rows as u8
        };
        let c: u8 = if cols < 1 {
            1
        } else if cols > 255 {
            255
        } else {
            cols as u8
        };
        self.machine.set_screen_dims(r, c);
    }

    /// Tags the interpreter's saved memory as a save of this engine.
    pub fn save_state(memory: Vec<u8>) -> (r: EngineSave)
        ensures
            r.engine@ == ZMACHINE_ENGINE@,
            r.format == ZMACHINE_SAVE_FORMAT,
            r.bytes == memory,
    {
        EngineSave::new(ZMACHINE_ENGINE, ZMACHINE_SAVE_FORMAT, memory)
    }

    /// Takes note of a save that the interpreter has read, before it runs on. A save of
    /// another engine is refused, and so is one that could not be read; the session then
    /// stays as it is. `read` is what became of the reading.
    ///
    /// A save brings no screen with it: what stood in the upper window belongs to the
    /// moment that was left, so that the window is blanked, and the held screen goes. So do
    /// the held words of the objects, which belong to the memory that was left. The
    /// interpreter takes the blank window over, and [`GameSession::settle_restored`] what it
    /// then paints on it.
    pub fn restore_state(&mut self, save: &EngineSave, read: Result<(), String>) -> (r: Result<
        (),
        EngineError,
    >)
        requires
            old(self).wf(),
            old(self).machine.upper.wf(),
        ensures
            final(self).wf(),
            r is Ok <==> save.engine@ == ZMACHINE_ENGINE@ && read is Ok,
            r matches Err(e) ==> *final(self) == *old(self) && match e {
                EngineError::EngineMismatch { expected, found } => save.engine@ != ZMACHINE_ENGINE@
                    && expected@ == ZMACHINE_ENGINE@ && found@ == save.engine@,
                EngineError::BadSave(why) => save.engine@ == ZMACHINE_ENGINE@ && read == Err::<
                    (),
                    String,
                >(why),
            },
            r is Ok ==> {
                &&& final(self).machine.upper.wf()
                &&& final(self).machine.upper.rows == old(self).machine.upper.rows
                &&& final(self).machine.upper.cols == old(self).machine.upper.cols
                &&& final(self).machine.upper.cells@ == Seq::new(
                    old(self).machine.upper.cells@.len(),
                    |i: int| blank_cell(),
                )
                &&& *final(self) == (GameSession {
                    v6_model_memo: None,
                    object_words: None,
                    machine: (Machine { upper: final(self).machine.upper, ..old(self).machine }),
                    ..*old(self)
                })
            },
    {
        match save.check_engine(ZMACHINE_ENGINE) {
            Err(e) => {
                return Err(e);
            },
            Ok(()) => {},
        }
        match read {
            Err(why) => Err(EngineError::BadSave(why)),
            Ok(()) => {
                self.v6_model_memo = None;
                self.object_words = None;
                self.machine.upper.blank();
                Ok(())
            },
        }
    }

    /// Takes note of where a restored game settled: `machine` is the interpreter as it
    /// stopped, with all that it painted on the way.
    pub fn settle_restored(&mut self, machine: Machine, settled: (InputKind, bool))
        requires
            old(self).wf(),
            machine.wf(),
        ensures
            final(self).wf(),
            *final(self) == (GameSession {
                machine,
                pending: settled.0,
                quit: settled.1,
                ..*old(self)
            }),
    {
        self.machine = machine;
        self.pending = settled.0;
        self.quit = settled.1;
    }

    /// Takes note of a game's own save that was restored. The interpreter ran on to where
    /// it settled, past the end of the game's own saving; what it printed on the way says
    /// no more than the host does, and is dropped.
    pub fn restore_game_save(&mut self, restored: Result<(InputKind, bool), String>) -> (r: Result<
        (),
        EngineError,
    >)
        requires
            old(self).wf(),
        ensures
            final(self).wf(),
            r is Ok <==> restored is Ok,
            r matches Err(e) ==> *final(self) == *old(self) && (e matches EngineError::BadSave(why)
                && restored == Err::<(InputKind, bool), String>(why)),
            r is Ok ==> {
                &&& final(self).pending == (restored->Ok_0).0
                &&& final(self).quit == (restored->Ok_0).1
                &&& final(self).sink.text@.len() == 0
                &&& final(self).sink.runs@.len() == 0
                &&& final(self).sink.buffering == old(self).sink.buffering
                &&& final(self).sink.cleared_at == old(self).sink.cleared_at
                &&& *final(self) == (GameSession {
                    pending: final(self).pending,
                    quit: final(self).quit,
                    v6_model_memo: None,
                    object_words: None,
                    sink: final(self).sink,
                    v6_win0_chars_seen: old(self).machine.win0_out_chars,
                    ..*old(self)
                })
            },
    {
        match restored {
            Err(why) => Err(EngineError::BadSave(why)),
            Ok(settled) => {
                self.v6_model_memo = None;
                self.object_words = None;
                let _ = self.take_transcript();
                self.pending = settled.0;
                self.quit = settled.1;
                Ok(())
            },
        }
    }
}

// ── Laws ──────────────────────────────────────────────────────────────────────
/// A restored screen is shown no narrower than the game in it was laid out for, nor than
/// the pane it is shown on.
pub proof fn a_restored_screen_is_wide_enough(m: &Machine, boot: u16, restored: u16)
    requires
        m.version >= 4,
        m.version != 6,
        m.screen_rows > 0,
        restored <= 255,
    ensures
        reconciled_dims(m, restored_cols(m.version, boot, restored)) matches Some(d) && d.1
            >= restored && d.1 >= m.screen_cols && d.0 == m.screen_rows,
{
}

/// Widening a row loses nothing.
pub proof fn widening_keeps_the_row(s: Seq<CharCell>, cols: u16)
    requires
        s.len() <= cols,
    ensures
        fitted_row(s, cols).take(s.len() as int) == s,
{
    assert(fitted_row(s, cols).take(s.len() as int) =~= s);
}

/// A story of version 6 keeps the windows that were saved, whatever the host's pane is.
pub proof fn a_v6_restore_keeps_the_windows(m: &Machine, floor_cols: u16)
    requires
        m.version == 6,
    ensures
        reconciled_dims(m, floor_cols) is None,
        forall|rows: u16, cols: u16| #[trigger] pane_dims(m.version, rows, cols) is None,
{
}

/// Whether a grid is another one at another width: the same rows, each with its characters
/// from the left, as many as fit, and with blanks behind them.
pub open spec fn is_refitted(a: CharGrid, b: CharGrid, row: int, col: int) -> bool {
    let i = row * b.cols + col;
    &&& 0 <= i < b.cells@.len()
    &&& col < a.cols ==> b.cells@[i] == a.cells@[row * a.cols + col]
    &&& col >= a.cols ==> b.cells@[i].ch == ' ' && b.cells@[i].style == 0 && b.cells@[i].fg == 0
        && b.cells@[i].bg == 0
}

/// The character of a refitted grid.
proof fn lemma_fitted_cell(cells: Seq<CharCell>, from: u16, to: u16, n: nat, row: int, col: int)
    requires
        0 <= row < n,
        0 <= col < to,
        n * from <= cells.len(),
    ensures
        fitted_rows(cells, from, to, n).len() == n * to,
        0 <= row * to + col < n * to,
        col < from ==> 0 <= row * from + col < cells.len() && fitted_rows(cells, from, to, n)[row
            * to + col] == cells[row * from + col],
        col >= from ==> fitted_rows(cells, from, to, n)[row * to + col] == blank_cell(),
    decreases n,
{
    let before = fitted_rows(cells, from, to, (n - 1) as nat);
    let src = cells.subrange((n - 1) * from as int, n * from as int);
    assert(0 <= (n - 1) * from <= n * from && n * from - (n - 1) * from == from)
        by (nonlinear_arith)
        requires
            n >= 1,
    ;
    assert(src.len() == from);
    assert(0 <= row * to + col < n * to && (n - 1) * to + to == n * to) by (nonlinear_arith)
        requires
            0 <= row < n,
            0 <= col < to,
    ;
    assert(col < from ==> 0 <= row * from + col < n * from) by (nonlinear_arith)
        requires
            0 <= row < n,
            0 <= col,
    ;
    lemma_fitted_len(cells, from, to, (n - 1) as nat);
    if row < n - 1 {
        lemma_fitted_cell(cells, from, to, (n - 1) as nat, row, col);
        assert(row * to + col < before.len());
    } else {
        assert(row * to + col - before.len() == col);
        assert(src[col] == cells[(n - 1) * from + col] || col >= from);
    }
}

/// The length of a refitted grid.
proof fn lemma_fitted_len(cells: Seq<CharCell>, from: u16, to: u16, n: nat)
    ensures
        fitted_rows(cells, from, to, n).len() == n * to,
    decreases n,
{
    if n > 0 {
        lemma_fitted_len(cells, from, to, (n - 1) as nat);
        assert((n - 1) * to + to == n * to) by (nonlinear_arith);
    } else {
        assert(0 * to == 0);
    }
}

/// Declaring a screen states its rows as rows and its columns as columns, from version 5 on
/// as its height and its width too, and gives the upper window its width: every row of the
/// window keeps its characters from the left, as many as fit, and the cursor stays inside.
pub proof fn a_declared_screen_has_the_size_told(
    before: Machine,
    after: Machine,
    rows: u8,
    cols: u8,
    row: int,
    col: int,
)
    requires
        before.upper.wf(),
        declared(before, after, rows, cols),
        0 <= row < before.upper.rows,
        0 <= col < cols,
    ensures
        after.screen_rows == rows,
        after.screen_cols == cols,
        before.version >= 5 ==> after.screen_w_px == cols && after.screen_h_px == rows,
        before.version < 5 ==> after.screen_w_px == before.screen_w_px && after.screen_h_px
            == before.screen_h_px,
        after.upper.rows == before.upper.rows,
        after.upper.cols == cols,
        is_refitted(before.upper, after.upper, row, col),
        before.cursor_col <= cols ==> after.cursor_col == before.cursor_col,
        before.cursor_col > cols ==> after.cursor_col == cols,
        after.cursor_row == before.cursor_row,
        after.version == before.version,
        after.v6 == before.v6,
        after.status_line == before.status_line,
        after.current_window == before.current_window,
{
    lemma_fitted_cell(
        before.upper.cells@,
        before.upper.cols,
        cols as u16,
        before.upper.rows as nat,
        row,
        col,
    );
}

/// The host's pane is declared as it is, within the range of a byte from one on; a story with
/// windows keeps its own screen.
pub proof fn a_pane_is_declared_as_it_is(version: u8, rows: u16, cols: u16)
    ensures
        version == 6 ==> pane_dims(version, rows, cols) is None,
        version != 6 ==> (pane_dims(version, rows, cols) matches Some(d) && {
            &&& 1 <= rows <= 255 ==> d.0 == rows
            &&& 1 <= cols <= 255 ==> d.1 == cols
            &&& rows > 255 ==> d.0 == 255
            &&& cols > 255 ==> d.1 == 255
            &&& rows == 0 ==> d.0 == 1
            &&& cols == 0 ==> d.1 == 1
        }),
{
}

/// A screen that is put back is the one that was saved: its upper window, its cursor, its
/// windows and the window that input is read through, with the colours of its current window;
/// all else of the interpreter is its own.
pub proof fn a_saved_screen_is_put_back(screen: ScreenState, m: Machine)
    requires
        screen.wf(),
    ensures
        screen.on(m).upper == screen.upper,
        screen.on(m).upper_window_rows == screen.upper_window_rows,
        screen.on(m).cursor_row == screen.cursor_row,
        screen.on(m).cursor_col == screen.cursor_col,
        screen.on(m).current_window == screen.current_window,
        screen.on(m).v6 == screen.v6,
        screen.on(m).v6_generation == screen.v6_generation,
        screen.on(m).input_window == screen.input_window,
        screen.on(m).buffer_mode == screen.buffer_mode,
        screen.v6 is None ==> screen.on(m).current_fg == screen.current_fg && screen.on(
            m,
        ).current_bg == screen.current_bg,
        screen.v6 matches Some(v6) ==> screen.on(m).current_fg
            == v6.windows@[v6.current as int].fg && screen.on(m).current_bg
            == v6.windows@[v6.current as int].bg,
        screen.on(m).version == m.version,
        screen.on(m).screen_rows == m.screen_rows,
        screen.on(m).screen_cols == m.screen_cols,
        screen.on(m).status_line == m.status_line,
        screen.on(m).win0_out_chars == m.win0_out_chars,
        screen.on(m).cell == m.cell,
        screen.on(m).terminators == m.terminators,
        screen.on(m).page_pair == m.page_pair,
        screen.on(m).flags2 == m.flags2,
{
}

/// What is declared after a restore keeps the rows, never narrows the screen, widens it from
/// version 4 on to what the restored game was laid out for and no further, and leaves a story
/// with windows, and a header without rows, alone.
pub proof fn a_restored_screen_is_no_wider_than_it_must_be(m: &Machine, floor_cols: u16)
    ensures
        reconciled_dims(m, floor_cols) matches Some(d) ==> {
            &&& m.version != 6
            &&& d.0 == m.screen_rows
            &&& d.1 >= m.screen_cols
            &&& m.version < 4 ==> d.1 == m.screen_cols
            &&& m.version >= 4 && floor_cols <= 255 ==> d.1 == m.screen_cols || d.1 == floor_cols
                || d.1 == 1
            &&& m.version >= 4 && 1 <= floor_cols <= 255 ==> d.1 >= floor_cols
            &&& d.1 > 0 && d.0 > 0
        },
        m.version != 6 && m.screen_rows > 0 && m.screen_cols > 0 ==> reconciled_dims(
            m,
            floor_cols,
        ) is Some,
{
}

} // verus!
