//! The debug shell: line editing from key presses, the sector number the
//! arrow keys step through, and the commands a line holds (`reboot`,
//! `clear`, `cd`, `ls`, `set lba`).
use vstd::prelude::*;

verus! {

/// The bytes `split_whitespace` separates words at, in ASCII.
pub open spec fn is_ws(b: u8) -> bool {
    b == 9 || b == 10 || b == 11 || b == 12 || b == 13 || b == 32
}

/// The first index at or after `i` that is not whitespace (or the end).
pub open spec fn skip_ws(s: Seq<u8>, i: int) -> int
    decreases s.len() - i,
{
    if i >= s.len() || i < 0 {
        s.len() as int
    } else if is_ws(s[i]) {
        skip_ws(s, i + 1)
    } else {
        i
    }
}

/// The first index at or after `i` that is whitespace (or the end).
pub open spec fn word_end(s: Seq<u8>, i: int) -> int
    decreases s.len() - i,
{
    if i >= s.len() || i < 0 {
        s.len() as int
    } else if is_ws(s[i]) {
        i
    } else {
        word_end(s, i + 1)
    }
}

/// Where word `k` (from 0) of `s` starts; the end of `s` when there are fewer words.
pub open spec fn word_start(s: Seq<u8>, k: nat) -> int
    decreases k,
{
    if k == 0 {
        skip_ws(s, 0)
    } else {
        skip_ws(s, word_end(s, word_start(s, (k - 1) as nat)))
    }
}

/// Word `k` of `s`, empty when there are fewer words.
pub open spec fn word(s: Seq<u8>, k: nat) -> Seq<u8> {
    let b = word_start(s, k);
    s.subrange(b, word_end(s, b))
}

proof fn lemma_skip_ws(s: Seq<u8>, i: int)
    requires
        0 <= i <= s.len(),
    ensures
        i <= skip_ws(s, i) <= s.len(),
        skip_ws(s, i) < s.len() ==> !is_ws(s[skip_ws(s, i)]),
    decreases s.len() - i,
{
    if i < s.len() && is_ws(s[i]) {
        lemma_skip_ws(s, i + 1);
    }
}

proof fn lemma_word_end(s: Seq<u8>, i: int)
    requires
        0 <= i <= s.len(),
    ensures
        i <= word_end(s, i) <= s.len(),
        forall|j: int| i <= j < word_end(s, i) ==> !is_ws(s[j]),
    decreases s.len() - i,
{
    if i < s.len() && !is_ws(s[i]) {
        lemma_word_end(s, i + 1);
    }
}

proof fn lemma_word_start(s: Seq<u8>, k: nat)
    ensures
        0 <= word_start(s, k) <= s.len(),
    decreases k,
{
    if k == 0 {
        lemma_skip_ws(s, 0);
    } else {
        lemma_word_start(s, (k - 1) as nat);
        lemma_word_end(s, word_start(s, (k - 1) as nat));
        lemma_skip_ws(s, word_end(s, word_start(s, (k - 1) as nat)));
    }
}

fn skip_ws_exec(s: &[u8], i: usize) -> (r: usize)
    requires
        i <= s@.len(),
    ensures
        r == skip_ws(s@, i as int),
{
    let mut j = i;
    while j < s.len() && (s[j] == 9 || s[j] == 10 || s[j] == 11 || s[j] == 12 || s[j] == 13 || s[j] == 32)
        invariant
            i <= j <= s@.len(),
            skip_ws(s@, i as int) == skip_ws(s@, j as int),
        decreases s@.len() - j,
    {
        j = j + 1;
    }
    j
}

fn word_end_exec(s: &[u8], i: usize) -> (r: usize)
    requires
        i <= s@.len(),
    ensures
        r == word_end(s@, i as int),
{
    let mut j = i;
    while j < s.len() && !(s[j] == 9 || s[j] == 10 || s[j] == 11 || s[j] == 12 || s[j] == 13 || s[j] == 32)
        invariant
            i <= j <= s@.len(),
            word_end(s@, i as int) == word_end(s@, j as int),
        decreases s@.len() - j,
    {
        j = j + 1;
    }
    j
}

/// The bounds of word `k` of `s`.
fn word_bounds(s: &[u8], k: usize) -> (r: (usize, usize))
    ensures
        r.0 == word_start(s@, k as nat),
        r.1 == word_end(s@, word_start(s@, k as nat)),
        r.0 <= r.1 <= s@.len(),
    decreases k,
{
    proof {
        lemma_word_start(s@, k as nat);
    }
    let b = if k == 0 {
        skip_ws_exec(s, 0)
    } else {
        let prev = word_bounds(s, k - 1);
        skip_ws_exec(s, prev.1)
    };
    proof {
        lemma_word_end(s@, b as int);
    }
    (b, word_end_exec(s, b))
}

/// Copies `s[lo..hi]`.
fn copy_range(s: &[u8], lo: usize, hi: usize) -> (v: Vec<u8>)
    requires
        lo <= hi <= s@.len(),
    ensures
        v@ == s@.subrange(lo as int, hi as int),
{
    let mut v: Vec<u8> = Vec::new();
    let mut i = lo;
    while i < hi
        invariant
            lo <= i <= hi,
            hi <= s@.len(),
            v@ == s@.subrange(lo as int, i as int),
        decreases hi - i,
    {
        v.push(s[i]);
        i = i + 1;
    }
    v
}

/// Word `k` of `s`.
pub fn nth_word(s: &[u8], k: usize) -> (w: Vec<u8>)
    ensures
        w@ == word(s@, k as nat),
{
    let (b, e) = word_bounds(s, k);
    copy_range(s, b, e)
}

/// Whether `a` and `b` hold the same bytes.
pub fn eq_bytes(a: &[u8], b: &[u8]) -> (r: bool)
    ensures
        r == (a@ == b@),
{
    if a.len() != b.len() {
        return false;
    }
    let mut i: usize = 0;
    while i < a.len()
        invariant
            a@.len() == b@.len(),
            i <= a@.len(),
            forall|j: int| 0 <= j < i ==> a@[j] == b@[j],
        decreases a@.len() - i,
    {
        if a[i] != b[i] {
            return false;
        }
        i = i + 1;
    }
    assert(a@ =~= b@);
    true
}

/// The value of digit `c` in base `radix` (10 or 16), if it is one.
pub open spec fn digit_value(c: u8, radix: u64) -> Option<nat> {
    if 0x30 <= c <= 0x39 && (c - 0x30) < radix {
        Some((c - 0x30) as nat)
    } else if radix == 16 && 0x61 <= c <= 0x66 {
        Some((c - 0x61 + 10) as nat)
    } else if radix == 16 && 0x41 <= c <= 0x46 {
        Some((c - 0x41 + 10) as nat)
    } else {
        None
    }
}

/// The value of a digit string, with no limit on its size; `None` for an
/// empty string or one with a byte that is not a digit.
pub open spec fn digits_value(s: Seq<u8>, radix: u64) -> Option<nat>
    decreases s.len(),
{
    if s.len() == 0 {
        None
    } else if s.len() == 1 {
        digit_value(s[0], radix)
    } else {
        match (digits_value(s.drop_last(), radix), digit_value(s.last(), radix)) {
            (Some(v), Some(d)) => Some((v * radix + d) as nat),
            _ => None,
        }
    }
}

/// What the standard library's unsigned parse in base `radix` accepts: an
/// optional `+`, then digits, with a value that fits in 64 bits.
pub open spec fn std_parse_u64(s: Seq<u8>, radix: u64) -> Option<u64> {
    let body = if s.len() > 0 && s[0] == 0x2B { s.drop_first() } else { s };
    match digits_value(body, radix) {
        Some(v) => if v <= u64::MAX { Some(v as u64) } else { None },
        None => None,
    }
}

fn digit_exec(c: u8, radix: u64) -> (r: Option<u64>)
    requires
        radix == 10 || radix == 16,
    ensures
        r matches Some(d) ==> digit_value(c, radix) == Some(d as nat) && d < radix,
        r is None ==> digit_value(c, radix) is None,
{
    if c >= 0x30 && c <= 0x39 && ((c - 0x30) as u64) < radix {
        Some((c - 0x30) as u64)
    } else if radix == 16 && c >= 0x61 && c <= 0x66 {
        Some((c - 0x61 + 10) as u64)
    } else if radix == 16 && c >= 0x41 && c <= 0x46 {
        Some((c - 0x41 + 10) as u64)
    } else {
        None
    }
}

proof fn lemma_digits_grow(s: Seq<u8>, radix: u64)
    requires
        radix == 10 || radix == 16,
        s.len() >= 2,
        digits_value(s, radix) is Some,
    ensures
        digits_value(s.drop_last(), radix) is Some,
        digits_value(s, radix).unwrap() >= digits_value(s.drop_last(), radix).unwrap() * radix,
{
}

proof fn lemma_digits_prefix(s: Seq<u8>, radix: u64, i: int)
    requires
        radix == 10 || radix == 16,
        1 <= i <= s.len(),
        digits_value(s, radix) is Some,
    ensures
        digits_value(s.subrange(0, i), radix) is Some,
        digits_value(s.subrange(0, i), radix).unwrap() <= digits_value(s, radix).unwrap(),
    decreases s.len() - i,
{
    if i < s.len() {
        assert(s.drop_last() =~= s.subrange(0, s.len() - 1));
        lemma_digits_grow(s, radix);
        lemma_digits_prefix(s.drop_last(), radix, i);
        assert(s.drop_last().subrange(0, i) =~= s.subrange(0, i));
    } else {
        assert(s.subrange(0, i) =~= s);
    }
}

/// The standard library's unsigned parse of `s` in base `radix`.
pub fn parse_u64(s: &[u8], radix: u64) -> (r: Option<u64>)
    requires
        radix == 10 || radix == 16,
    ensures
        r == std_parse_u64(s@, radix),
{
    let start: usize = if s.len() > 0 && s[0] == 0x2B { 1 } else { 0 };
    let ghost body = if s@.len() > 0 && s@[0] == 0x2B { s@.drop_first() } else { s@ };
    assert(body =~= s@.subrange(start as int, s@.len() as int));
    if start == s.len() {
        return None;
    }
    let mut v: u64 = 0;
    let mut i = start;
    while i < s.len()
        invariant
            start < s@.len(),
            start <= i <= s@.len(),
            body == s@.subrange(start as int, s@.len() as int),
            body == (if s@.len() > 0 && s@[0] == 0x2B { s@.drop_first() } else { s@ }),
            radix == 10 || radix == 16,
            i > start ==> digits_value(s@.subrange(start as int, i as int), radix) == Some(v as nat),
            i == start ==> v == 0,
        decreases s@.len() - i,
    {
        let ghost pre = s@.subrange(start as int, i as int);
        let ghost next = s@.subrange(start as int, i as int + 1);
        assert(next.drop_last() =~= pre);
        assert(next.last() == s@[i as int]);
        match digit_exec(s[i], radix) {
            None => {
                proof {
                    lemma_digits_none_extends(body, radix, (i - start) as int + 1);
                    assert(body.subrange(0, (i - start) as int + 1) =~= next);
                }
                return None;
            },
            Some(d) => {
                if i > start && v > (u64::MAX - d) / radix {
                    proof {
                        assert(v * radix + d > u64::MAX) by (nonlinear_arith)
                            requires
                                v > ((u64::MAX - d) as u64) / radix,
                                radix > 0,
                                d < radix,
                        ;
                        assert(body.subrange(0, (i - start) as int + 1) =~= next);
                        lemma_digits_overflow(body, radix, (i - start) as int + 1);
                    }
                    return None;
                }
                proof {
                    if i > start {
                        assert(v * radix + d <= u64::MAX) by (nonlinear_arith)
                            requires
                                v <= ((u64::MAX - d) as u64) / radix,
                                radix > 0,
                                d < radix,
                        ;
                    }
                }
                v = if i == start { d } else { v * radix + d };
                i = i + 1;
            },
        }
    }
    assert(s@.subrange(start as int, s@.len() as int) =~= body);
    Some(v)
}

proof fn lemma_digits_none_extends(s: Seq<u8>, radix: u64, i: int)
    requires
        radix == 10 || radix == 16,
        1 <= i <= s.len(),
        digits_value(s.subrange(0, i), radix) is None,
    ensures
        digits_value(s, radix) is None,
{
    if digits_value(s, radix) is Some {
        lemma_digits_prefix(s, radix, i);
    }
}

proof fn lemma_digits_overflow(s: Seq<u8>, radix: u64, i: int)
    requires
        radix == 10 || radix == 16,
        1 <= i <= s.len(),
        digits_value(s.subrange(0, i), radix) matches Some(v) && v > u64::MAX,
    ensures
        !(digits_value(s, radix) matches Some(v) && v <= u64::MAX),
{
    if digits_value(s, radix) is Some {
        lemma_digits_prefix(s, radix, i);
    }
}

/// The value `set lba` takes from its argument: hexadecimal after `0x` or
/// `0X`, decimal otherwise, and 0 when the parse fails.
pub open spec fn lba_value(t: Seq<u8>) -> u64 {
    if t.len() >= 2 && t[0] == 0x30 && (t[1] == 0x78 || t[1] == 0x58) {
        match std_parse_u64(t.subrange(2, t.len() as int), 16) {
            Some(v) => v,
            None => 0,
        }
    } else {
        match std_parse_u64(t, 10) {
            Some(v) => v,
            None => 0,
        }
    }
}

pub fn parse_lba(t: &[u8]) -> (v: u64)
    ensures
        v == lba_value(t@),
{
    if t.len() >= 2 && t[0] == 0x30 && (t[1] == 0x78 || t[1] == 0x58) {
        let rest = copy_range(t, 2, t.len());
        match parse_u64(rest.as_slice(), 16) {
            Some(v) => v,
            None => 0,
        }
    } else {
        match parse_u64(t, 10) {
            Some(v) => v,
            None => 0,
        }
    }
}

/// A command line, as the shell reads it.
pub enum ShellCommand {
    /// No word at all.
    Empty,
    Reboot,
    Clear,
    /// `cd` with no target, `/` or `..`: back to the root directory.
    CdRoot,
    /// `cd` into a directory by name.
    Cd(Vec<u8>),
    /// `ls` of the current directory (empty name) or of a named one.
    Ls(Vec<u8>),
    /// `set lba` with a value.
    SetLba(u64),
    /// `set lba` without a value: show the current one.
    ShowLba,
    /// `set` with anything but `lba`.
    SetUsage,
    /// Any other first word.
    Unknown(Vec<u8>),
}

pub open spec fn lit_reboot() -> Seq<u8> { seq![0x72u8, 0x65, 0x62, 0x6F, 0x6F, 0x74] }
pub open spec fn lit_clear() -> Seq<u8> { seq![0x63u8, 0x6C, 0x65, 0x61, 0x72] }
pub open spec fn lit_cd() -> Seq<u8> { seq![0x63u8, 0x64] }
pub open spec fn lit_ls() -> Seq<u8> { seq![0x6Cu8, 0x73] }
pub open spec fn lit_set() -> Seq<u8> { seq![0x73u8, 0x65, 0x74] }
pub open spec fn lit_lba() -> Seq<u8> { seq![0x6Cu8, 0x62, 0x61] }
pub open spec fn lit_root() -> Seq<u8> { seq![0x2Fu8] }
pub open spec fn lit_up() -> Seq<u8> { seq![0x2Eu8, 0x2E] }

/// What a line means: the first word picks the command, the next words
/// are its arguments.
pub open spec fn command_meaning(line: Seq<u8>, c: ShellCommand) -> bool {
    let w0 = word(line, 0);
    let w1 = word(line, 1);
    let w2 = word(line, 2);
    if w0.len() == 0 {
        c is Empty
    } else if w0 == lit_reboot() {
        c is Reboot
    } else if w0 == lit_clear() {
        c is Clear
    } else if w0 == lit_cd() {
        if w1.len() == 0 || w1 == lit_root() || w1 == lit_up() {
            c is CdRoot
        } else {
            c matches ShellCommand::Cd(t) && t@ == w1
        }
    } else if w0 == lit_ls() {
        c matches ShellCommand::Ls(t) && t@ == w1
    } else if w0 == lit_set() {
        if w1 == lit_lba() {
            if w2.len() == 0 {
                c is ShowLba
            } else {
                c == ShellCommand::SetLba(lba_value(w2))
            }
        } else {
            c is SetUsage
        }
    } else {
        c matches ShellCommand::Unknown(t) && t@ == w0
    }
}

/// Reads a command line.
pub fn parse_command(line: &[u8]) -> (c: ShellCommand)
    ensures
        command_meaning(line@, c),
{
    let w0 = nth_word(line, 0);
    if w0.len() == 0 {
        return ShellCommand::Empty;
    }
    let reboot: [u8; 6] = [0x72, 0x65, 0x62, 0x6F, 0x6F, 0x74];
    let clear: [u8; 5] = [0x63, 0x6C, 0x65, 0x61, 0x72];
    let cd: [u8; 2] = [0x63, 0x64];
    let ls: [u8; 2] = [0x6C, 0x73];
    let set: [u8; 3] = [0x73, 0x65, 0x74];
    let lba: [u8; 3] = [0x6C, 0x62, 0x61];
    let root: [u8; 1] = [0x2F];
    let up: [u8; 2] = [0x2E, 0x2E];
    assert(reboot@ =~= lit_reboot());
    assert(clear@ =~= lit_clear());
    assert(cd@ =~= lit_cd());
    assert(ls@ =~= lit_ls());
    assert(set@ =~= lit_set());
    assert(lba@ =~= lit_lba());
    assert(root@ =~= lit_root());
    assert(up@ =~= lit_up());
    if eq_bytes(w0.as_slice(), reboot.as_slice()) {
        ShellCommand::Reboot
    } else if eq_bytes(w0.as_slice(), clear.as_slice()) {
        ShellCommand::Clear
    } else if eq_bytes(w0.as_slice(), cd.as_slice()) {
        let w1 = nth_word(line, 1);
        if w1.len() == 0 || eq_bytes(w1.as_slice(), root.as_slice()) || eq_bytes(w1.as_slice(), up.as_slice()) {
            ShellCommand::CdRoot
        } else {
            ShellCommand::Cd(w1)
        }
    } else if eq_bytes(w0.as_slice(), ls.as_slice()) {
        ShellCommand::Ls(nth_word(line, 1))
    } else if eq_bytes(w0.as_slice(), set.as_slice()) {
        let w1 = nth_word(line, 1);
        if eq_bytes(w1.as_slice(), lba.as_slice()) {
            let w2 = nth_word(line, 2);
            if w2.len() == 0 {
                ShellCommand::ShowLba
            } else {
                ShellCommand::SetLba(parse_lba(w2.as_slice()))
            }
        } else {
            ShellCommand::SetUsage
        }
    } else {
        ShellCommand::Unknown(w0)
    }
}

/// The longest line the shell keeps.
pub const INPUT_MAX: usize = 63;
/// The highest sector the arrow keys step to.
pub const LBA_STEP_MAX: u64 = 0xFFFFFFFF;

/// The shell's state: the line being typed, the sector shown, and the
/// current directory (0 for the root).
pub struct Shell {
    pub input: Vec<u8>,
    pub debug_lba: u64,
    pub current_dir_cluster: u32,
}

/// What a key press asks of the kernel.
pub enum KeyEffect {
    /// Nothing beyond the new state.
    Nothing,
    /// Enter was pressed on this line.
    Command(ShellCommand),
}

impl Shell {
    pub fn new() -> (s: Self)
        ensures
            s.input@.len() == 0,
            s.debug_lba == 0,
            s.current_dir_cluster == 0,
    {
        Shell { input: Vec::new(), debug_lba: 0, current_dir_cluster: 0 }
    }

    /// One key: releases do nothing; the left and right arrows step the
    /// sector (not below 0, not past `LBA_STEP_MAX`); Enter reads the line,
    /// applies `cd` to the root and `set lba`, and clears the line;
    /// backspace drops the last byte; any other key appends the character
    /// the keymap gives it (`ch`), unless that is NUL, backspace or newline
    /// or the line is full.
    pub fn key(&mut self, sc: u8, ch: char) -> (e: KeyEffect)
        requires
            old(self).input@.len() <= INPUT_MAX,
        ensures
            final(self).input@.len() <= INPUT_MAX,
            sc & 0x80 != 0 ==> e is Nothing && final(self).input@ == old(self).input@
                && final(self).debug_lba == old(self).debug_lba
                && final(self).current_dir_cluster == old(self).current_dir_cluster,
            sc & 0x80 == 0 && sc == 0x4B ==> e is Nothing && final(self).input@ == old(self).input@
                && final(self).debug_lba == (if old(self).debug_lba > 0 { (old(self).debug_lba - 1) as u64 } else { 0 })
                && final(self).current_dir_cluster == old(self).current_dir_cluster,
            sc & 0x80 == 0 && sc == 0x4D ==> e is Nothing && final(self).input@ == old(self).input@
                && final(self).debug_lba == (if old(self).debug_lba < LBA_STEP_MAX { (old(self).debug_lba + 1) as u64 } else { old(self).debug_lba })
                && final(self).current_dir_cluster == old(self).current_dir_cluster,
            sc & 0x80 == 0 && sc == 0x1C ==> final(self).input@.len() == 0 && (match e {
                KeyEffect::Command(c) => command_meaning(old(self).input@, c)
                    && final(self).current_dir_cluster == (if c is CdRoot { 0 } else { old(self).current_dir_cluster })
                    && final(self).debug_lba == (match c {
                        ShellCommand::SetLba(v) => v,
                        _ => old(self).debug_lba,
                    }),
                KeyEffect::Nothing => false,
            }),
            sc & 0x80 == 0 && sc == 0x0E ==> e is Nothing
                && final(self).input@ == (if old(self).input@.len() > 0 { old(self).input@.drop_last() } else { old(self).input@ })
                && final(self).debug_lba == old(self).debug_lba
                && final(self).current_dir_cluster == old(self).current_dir_cluster,
            sc & 0x80 == 0 && sc != 0x4B && sc != 0x4D && sc != 0x1C && sc != 0x0E ==> e is Nothing
                && final(self).input@ == (if ch != '\0' && ch != '\x08' && ch != '\n' && old(self).input@.len() < INPUT_MAX {
                    old(self).input@.push(ch as u8)
                } else {
                    old(self).input@
                })
                && final(self).debug_lba == old(self).debug_lba
                && final(self).current_dir_cluster == old(self).current_dir_cluster,
    {
        if sc & 0x80 != 0 {
            return KeyEffect::Nothing;
        }
        if sc == 0x4B {
            if self.debug_lba > 0 {
                self.debug_lba = self.debug_lba - 1;
            }
            KeyEffect::Nothing
        } else if sc == 0x4D {
            if self.debug_lba < LBA_STEP_MAX {
                self.debug_lba = self.debug_lba + 1;
            }
            KeyEffect::Nothing
        } else if sc == 0x1C {
            let c = parse_command(self.input.as_slice());
            match c {
                ShellCommand::CdRoot => {
                    self.current_dir_cluster = 0;
                },
                ShellCommand::SetLba(v) => {
                    self.debug_lba = v;
                },
                _ => {},
            }
            self.input = Vec::new();
            KeyEffect::Command(c)
        } else if sc == 0x0E {
            if self.input.len() > 0 {
                self.input.pop();
            }
            KeyEffect::Nothing
        } else {
            if ch != '\0' && ch != '\x08' && ch != '\n' && self.input.len() < INPUT_MAX {
                self.input.push(ch as u8);
            }
            KeyEffect::Nothing
        }
    }

    /// The directory a `cd` or `ls` starts from: the current one, or the
    /// root cluster when the current one is the root.
    pub fn start_cluster(&self, root_cluster: u32) -> (c: u32)
        ensures
            c == if self.current_dir_cluster == 0 { root_cluster } else { self.current_dir_cluster },
    {
        if self.current_dir_cluster == 0 { root_cluster } else { self.current_dir_cluster }
    }

    /// A `cd` found its directory at `cluster`.
    pub fn enter_directory(&mut self, cluster: u32)
        ensures
            final(self).current_dir_cluster == cluster,
            final(self).input@ == old(self).input@,
            final(self).debug_lba == old(self).debug_lba,
    {
        self.current_dir_cluster = cluster;
    }
}

} // verus!
