//! Scanner for the Wavefront OBJ text format.
//!
//! A [`Scanner`] walks a single line of an OBJ file, character by
//! character, and recognises the pieces the mesh loader needs: runs of
//! whitespace, unsigned decimal numbers, signed decimal literals, face
//! vertex references such as `3/1/2`, and whole lines. Every `take_*`
//! method is specified against a pure description of the same grammar on
//! `Seq<char>`, so a caller knows exactly which characters were consumed
//! and what value they denote.

use vstd::prelude::*;

verus! {

/// The ways a line of OBJ text can be malformed, and the ways a face can
/// refer to vertex data that was never declared.
#[derive(Debug, Clone, Copy, PartialEq, Eq, Structural)]
pub enum ScannerError {
    /// A character was required but the line ended.
    UnexpectedEndOfFile,
    /// A separating space was required but something else was found.
    ExpectedAtLeastOnWhitespace,
    /// A decimal digit was required but something else was found.
    ExpectedDigits,
    /// A run of digits does not fit into `usize`.
    UsizeFormat,
    /// A face names a position index outside `1..=positions.len()`.
    PosIdOutOfRange(usize),
    /// A face names a normal index outside `1..=normals.len()`.
    NorIdOutOfRange(usize),
    /// A face names a texture index outside `1..=texture_coords.len()`.
    TexIdOutOfRange(usize),
    /// A face vertex gives no normal index, which the mesh format requires.
    MissingNormal,
}

/// A face vertex reference: zero-based position index, optional zero-based
/// texture-coordinate index, optional zero-based normal index.
pub type Vertex = (usize, Option<usize>, Option<usize>);

/// True for the ten ASCII decimal digits.
pub open spec fn is_dec_digit(c: char) -> bool {
    '0' <= c && c <= '9'
}

/// Numeric value of one decimal digit.
pub open spec fn digit_value(c: char) -> int {
    c as u32 - '0' as u32
}

/// What remains of `s` after its leading run of spaces.
pub open spec fn skip_spaces(s: Seq<char>) -> Seq<char>
    decreases s.len(),
{
    if s.len() > 0 && s[0] == ' ' {
        skip_spaces(s.skip(1))
    } else {
        s
    }
}

/// The leading run of decimal digits of `s`.
pub open spec fn digit_prefix(s: Seq<char>) -> Seq<char>
    decreases s.len(),
{
    if s.len() > 0 && is_dec_digit(s[0]) {
        seq![s[0]] + digit_prefix(s.skip(1))
    } else {
        Seq::empty()
    }
}

/// The number denoted by a run of decimal digits, most significant first.
pub open spec fn digits_value(s: Seq<char>) -> int
    decreases s.len(),
{
    if s.len() == 0 {
        0
    } else {
        digits_value(s.take(s.len() - 1)) * 10 + digit_value(s[s.len() - 1])
    }
}

pub broadcast proof fn lemma_skip_spaces_len(s: Seq<char>)
    ensures
        #[trigger] skip_spaces(s).len() <= s.len(),
    decreases s.len(),
{
    if s.len() > 0 && s[0] == ' ' {
        lemma_skip_spaces_len(s.skip(1));
    }
}

pub broadcast proof fn lemma_digit_prefix_len(s: Seq<char>)
    ensures
        #[trigger] digit_prefix(s).len() <= s.len(),
    decreases s.len(),
{
    if s.len() > 0 && is_dec_digit(s[0]) {
        lemma_digit_prefix_len(s.skip(1));
    }
}

/// Every character of the digit prefix is a digit.
pub proof fn lemma_digit_prefix_digits(s: Seq<char>)
    ensures
        forall|i: int| 0 <= i < digit_prefix(s).len() ==> is_dec_digit(#[trigger] digit_prefix(s)[i]),
    decreases s.len(),
{
    if s.len() > 0 && is_dec_digit(s[0]) {
        lemma_digit_prefix_digits(s.skip(1));
        assert forall|i: int| 0 <= i < digit_prefix(s).len() implies is_dec_digit(
            digit_prefix(s)[i],
        ) by {
            if i > 0 {
                assert(digit_prefix(s)[i] == digit_prefix(s.skip(1))[i - 1]);
            }
        }
    }
}

/// A run of digits is never negative.
pub proof fn lemma_digits_value_nonneg(d: Seq<char>)
    requires
        forall|i: int| 0 <= i < d.len() ==> is_dec_digit(#[trigger] d[i]),
    ensures
        digits_value(d) >= 0,
    decreases d.len(),
{
    if d.len() > 0 {
        lemma_digits_value_nonneg(d.take(d.len() - 1));
    }
}

/// Reading further digits can only increase the value.
pub proof fn lemma_digits_value_monotone(d: Seq<char>, i: int)
    requires
        0 <= i <= d.len(),
        forall|j: int| 0 <= j < d.len() ==> is_dec_digit(#[trigger] d[j]),
    ensures
        digits_value(d.take(i)) <= digits_value(d),
    decreases d.len() - i,
{
    if i == d.len() {
        assert(d.take(i) =~= d);
    } else {
        assert(d.take(i + 1).take(i) =~= d.take(i));
        assert(d.take(i + 1)[i] == d[i]);
        lemma_digits_value_nonneg(d.take(i));
        lemma_digits_value_monotone(d, i + 1);
    }
}

/// Outcome and remainder of scanning an unsigned decimal number from the
/// front of `s`.
pub open spec fn spec_take_usize(s: Seq<char>) -> (Result<usize, ScannerError>, Seq<char>) {
    let d = digit_prefix(s);
    if d.len() == 0 {
        (Err(ScannerError::ExpectedDigits), s)
    } else if digits_value(d) > usize::MAX {
        (Err(ScannerError::UsizeFormat), s.skip(d.len() as int))
    } else {
        (Ok(digits_value(d) as usize), s.skip(d.len() as int))
    }
}

/// Outcome and remainder of scanning a signed decimal literal
/// (`-`? digits (`.` digits)?) from the front of `s`.
pub open spec fn spec_take_float_digits(s: Seq<char>) -> (Result<Seq<char>, ScannerError>, Seq<
    char,
>) {
    let has_sign = s.len() > 0 && s[0] == '-';
    let sign: Seq<char> = if has_sign {
        seq!['-']
    } else {
        Seq::empty()
    };
    let s1 = if has_sign {
        s.skip(1)
    } else {
        s
    };
    let d1 = digit_prefix(s1);
    if d1.len() == 0 {
        (Err(ScannerError::ExpectedDigits), s1)
    } else {
        let s2 = s1.skip(d1.len() as int);
        if s2.len() > 0 && s2[0] == '.' {
            let s3 = s2.skip(1);
            let d2 = digit_prefix(s3);
            if d2.len() == 0 {
                (Err(ScannerError::ExpectedDigits), s3)
            } else {
                (Ok(sign + d1 + seq!['.'] + d2), s3.skip(d2.len() as int))
            }
        } else {
            (Ok(sign + d1), s2)
        }
    }
}

/// Outcome and remainder of scanning a face vertex reference
/// (`p`, `p/t`, `p//n` or `p/t/n`, all indices one-based) from the
/// front of `s`; the indices of the outcome are zero-based.
pub open spec fn spec_take_vertex(s: Seq<char>) -> (Result<Vertex, ScannerError>, Seq<char>) {
    let (r0, a0) = spec_take_usize(s);
    match r0 {
        Err(e) => (Err(e), a0),
        Ok(n) => if n == 0 {
            (Err(ScannerError::PosIdOutOfRange(0)), a0)
        } else {
            let pos_id = (n - 1) as usize;
            let s1 = skip_spaces(a0);
            if s1.len() > 0 && s1[0] == '/' {
                let s2 = skip_spaces(s1.skip(1));
                if s2.len() > 0 && s2[0] == '/' {
                    let s3 = skip_spaces(s2.skip(1));
                    let (rn, a3) = spec_take_usize(s3);
                    match rn {
                        Err(e) => (Err(e), a3),
                        Ok(m) => if m == 0 {
                            (Err(ScannerError::NorIdOutOfRange(0)), a3)
                        } else {
                            (Ok((pos_id, None, Some((m - 1) as usize))), a3)
                        },
                    }
                } else {
                    let (rt, a2) = spec_take_usize(s2);
                    match rt {
                        Err(e) => (Err(e), a2),
                        Ok(m) => if m == 0 {
                            (Err(ScannerError::TexIdOutOfRange(0)), a2)
                        } else {
                            let uv_id = (m - 1) as usize;
                            let s4 = skip_spaces(a2);
                            if s4.len() > 0 && s4[0] == '/' {
                                let s5 = skip_spaces(s4.skip(1));
                                let (rn, a5) = spec_take_usize(s5);
                                match rn {
                                    Err(e) => (Err(e), a5),
                                    Ok(k) => if k == 0 {
                                        (Err(ScannerError::NorIdOutOfRange(0)), a5)
                                    } else {
                                        (Ok((pos_id, Some(uv_id), Some((k - 1) as usize))), a5)
                                    },
                                }
                            } else {
                                (Ok((pos_id, Some(uv_id), None)), s4)
                            }
                        },
                    }
                }
            } else {
                (Ok((pos_id, None, None)), s1)
            }
        },
    }
}

/// Scanning a number never lengthens the input, and consumes at least
/// one character when it succeeds.
pub broadcast proof fn lemma_spec_take_usize_consumes(s: Seq<char>)
    ensures
        (#[trigger] spec_take_usize(s)).1.len() <= s.len(),
        spec_take_usize(s).0 is Ok ==> spec_take_usize(s).1.len() < s.len(),
{
    lemma_digit_prefix_len(s);
}

/// Scanning a face vertex never lengthens the input, and consumes at
/// least one character when it succeeds.
pub broadcast proof fn lemma_spec_take_vertex_consumes(s: Seq<char>)
    ensures
        (#[trigger] spec_take_vertex(s)).1.len() <= s.len(),
        spec_take_vertex(s).0 is Ok ==> spec_take_vertex(s).1.len() < s.len(),
{
    broadcast use lemma_skip_spaces_len, lemma_spec_take_usize_consumes;

}

/// Outcome and remainder of requiring at least one space at the front
/// of `s` and consuming the whole run.
pub open spec fn spec_take_whitespace(s: Seq<char>) -> (Result<(), ScannerError>, Seq<char>) {
    if s.len() > 0 && s[0] == ' ' {
        (Ok(()), skip_spaces(s))
    } else {
        (Err(ScannerError::ExpectedAtLeastOnWhitespace), s)
    }
}

/// Outcome and remainder of scanning three space-separated decimal
/// literals from the front of `s`.
pub open spec fn spec_take_vec3(s: Seq<char>) -> (Result<
    (Seq<char>, Seq<char>, Seq<char>),
    ScannerError,
>, Seq<char>) {
    let (w0, a0) = spec_take_whitespace(s);
    match w0 {
        Err(e) => (Err(e), a0),
        Ok(_) => {
            let (r1, a1) = spec_take_float_digits(a0);
            match r1 {
                Err(e) => (Err(e), a1),
                Ok(x) => {
                    let (w1, b1) = spec_take_whitespace(a1);
                    match w1 {
                        Err(e) => (Err(e), b1),
                        Ok(_) => {
                            let (r2, a2) = spec_take_float_digits(b1);
                            match r2 {
                                Err(e) => (Err(e), a2),
                                Ok(y) => {
                                    let (w2, b2) = spec_take_whitespace(a2);
                                    match w2 {
                                        Err(e) => (Err(e), b2),
                                        Ok(_) => {
                                            let (r3, a3) = spec_take_float_digits(b2);
                                            match r3 {
                                                Err(e) => (Err(e), a3),
                                                Ok(z) => (Ok((x, y, z)), a3),
                                            }
                                        },
                                    }
                                },
                            }
                        },
                    }
                },
            }
        },
    }
}

/// Outcome and remainder of scanning two space-separated decimal
/// literals from the front of `s`.
pub open spec fn spec_take_vec2(s: Seq<char>) -> (Result<(Seq<char>, Seq<char>), ScannerError>, Seq<
    char,
>) {
    let (w0, a0) = spec_take_whitespace(s);
    match w0 {
        Err(e) => (Err(e), a0),
        Ok(_) => {
            let (r1, a1) = spec_take_float_digits(a0);
            match r1 {
                Err(e) => (Err(e), a1),
                Ok(x) => {
                    let (w1, b1) = spec_take_whitespace(a1);
                    match w1 {
                        Err(e) => (Err(e), b1),
                        Ok(_) => {
                            let (r2, a2) = spec_take_float_digits(b1);
                            match r2 {
                                Err(e) => (Err(e), a2),
                                Ok(y) => (Ok((x, y)), a2),
                            }
                        },
                    }
                },
            }
        },
    }
}

/// Outcome and remainder of scanning face vertex references separated
/// by whitespace until the end of the line.
pub open spec fn spec_take_faces(s: Seq<char>) -> (Result<Seq<Vertex>, ScannerError>, Seq<char>)
    decreases s.len(),
{
    if s.len() == 0 {
        (Ok(Seq::empty()), s)
    } else {
        let (r0, a0) = spec_take_vertex(s);
        match r0 {
            Err(e) => (Err(e), a0),
            Ok(v) => {
                let a1 = skip_spaces(a0);
                if a1.len() < s.len() {
                    let (rr, a2) = spec_take_faces(a1);
                    match rr {
                        Err(e) => (Err(e), a2),
                        Ok(vs) => (Ok(seq![v] + vs), a2),
                    }
                } else {
                    // A successful vertex always consumes at least one
                    // character, so this branch is never reached.
                    (arbitrary(), s)
                }
            },
        }
    }
}

/// One recognised line of OBJ text, with every number still in its
/// textual form; the caller converts positions, normals and texture
/// coordinates to its own scalar type.
pub enum LineType {
    /// `v`: a vertex position, three numbers.
    V(crate::vec3::Vec3<Vec<char>>),
    /// `vn`: a vertex normal, three numbers.
    Vn(crate::vec3::Vec3<Vec<char>>),
    /// `vt`: a texture coordinate, two numbers.
    Vt(crate::vec2::Vec2<Vec<char>>),
    /// `f`: a face, one vertex reference per corner.
    F(Vec<Vertex>),
    /// A line this loader does not interpret.
    Unknown,
    /// `#`: a comment.
    Comment,
    /// `o`: an object name.
    Object,
}

/// The mathematical shape of a recognised line, over sequences.
pub enum ObjLine {
    V(Seq<char>, Seq<char>, Seq<char>),
    Vn(Seq<char>, Seq<char>, Seq<char>),
    Vt(Seq<char>, Seq<char>),
    F(Seq<Vertex>),
    Unknown,
    Comment,
    Object,
}

/// Relates a scanned [`LineType`] to its mathematical shape.
pub open spec fn line_matches(l: LineType, m: ObjLine) -> bool {
    match (l, m) {
        (LineType::V(v), ObjLine::V(x, y, z)) => v.e@[0]@ == x && v.e@[1]@ == y && v.e@[2]@ == z,
        (LineType::Vn(v), ObjLine::Vn(x, y, z)) => v.e@[0]@ == x && v.e@[1]@ == y && v.e@[2]@ == z,
        (LineType::Vt(v), ObjLine::Vt(x, y)) => v.x@ == x && v.y@ == y,
        (LineType::F(ids), ObjLine::F(vs)) => ids@ == vs,
        (LineType::Unknown, ObjLine::Unknown) => true,
        (LineType::Comment, ObjLine::Comment) => true,
        (LineType::Object, ObjLine::Object) => true,
        _ => false,
    }
}

/// Outcome and remainder of scanning one whole line of OBJ text.
pub open spec fn spec_take_line_type(s: Seq<char>) -> (Result<ObjLine, ScannerError>, Seq<char>) {
    if s.len() > 0 && s[0] == 'v' {
        let t = s.skip(1);
        if t.len() > 0 && t[0] == 'n' {
            let (r, a) = spec_take_vec3(t.skip(1));
            match r {
                Err(e) => (Err(e), a),
                Ok(v) => (Ok(ObjLine::Vn(v.0, v.1, v.2)), a),
            }
        } else if t.len() > 0 && t[0] == 't' {
            let (r, a) = spec_take_vec2(t.skip(1));
            match r {
                Err(e) => (Err(e), a),
                Ok(v) => (Ok(ObjLine::Vt(v.0, v.1)), a),
            }
        } else {
            let (r, a) = spec_take_vec3(t);
            match r {
                Err(e) => (Err(e), a),
                Ok(v) => (Ok(ObjLine::V(v.0, v.1, v.2)), a),
            }
        }
    } else if s.len() > 0 && s[0] == 'f' {
        let t = s.skip(1);
        let (w, a) = spec_take_whitespace(t);
        match w {
            Err(e) => (Err(e), a),
            Ok(_) => {
                let (r, b) = spec_take_faces(a);
                match r {
                    Err(e) => (Err(e), b),
                    Ok(vs) => (Ok(ObjLine::F(vs)), b),
                }
            },
        }
    } else if s.len() > 0 && s[0] == '#' {
        (Ok(ObjLine::Comment), s.skip(1))
    } else if s.len() > 0 && s[0] == 'o' {
        (Ok(ObjLine::Object), s.skip(1))
    } else {
        (Ok(ObjLine::Unknown), s)
    }
}

/// A scanner owns the characters of one line and a cursor into them; its
/// view is the sequence of characters not yet consumed.
pub struct Scanner {
    chars: Vec<char>,
    pos: usize,
}

impl View for Scanner {
    type V = Seq<char>;

    closed spec fn view(&self) -> Seq<char> {
        self.chars@.skip(self.pos as int)
    }
}

impl Scanner {
    #[verifier::type_invariant]
    spec fn wf(self) -> bool {
        self.pos <= self.chars@.len()
    }

    /// Starts a scanner over all of `chars`.
    pub fn new(chars: Vec<char>) -> (s: Scanner)
        ensures
            s@ == chars@,
    {
        let s = Scanner { chars, pos: 0 };
        proof {
            assert(s@ =~= s.chars@);
        }
        s
    }

    /// Scans one whole line in a fresh scanner.
    pub fn parse_line(chars: Vec<char>) -> (r: Result<LineType, ScannerError>)
        ensures
            (match (r, spec_take_line_type(chars@).0) {
                (Ok(l), Ok(m)) => line_matches(l, m),
                (Err(e), Err(e2)) => e == e2,
                _ => false,
            }),
    {
        let mut scanner = Self::new(chars);
        scanner.take_line_type()
    }

    /// The next character, if any, without consuming it.
    pub fn peek(&self) -> (r: Option<char>)
        ensures
            r == (if self@.len() > 0 {
                Some(self@[0])
            } else {
                None::<char>
            }),
    {
        proof {
            use_type_invariant(self);
        }
        if self.pos < self.chars.len() {
            Some(self.chars[self.pos])
        } else {
            None
        }
    }

    /// Consumes and returns the next character, if any.
    pub fn try_take(&mut self) -> (r: Option<char>)
        ensures
            old(self)@.len() > 0 ==> r == Some(old(self)@[0]) && final(self)@ == old(self)@.skip(1),
            old(self)@.len() == 0 ==> r is None && final(self)@ == old(self)@,
    {
        proof {
            use_type_invariant(&*self);
        }
        if self.pos < self.chars.len() {
            let c = self.chars[self.pos];
            self.pos = self.pos + 1;
            Some(c)
        } else {
            None
        }
    }

    /// Consumes the next character only when it equals `c`.
    pub fn try_take_char(&mut self, c: char) -> (r: Option<char>)
        ensures
            old(self)@.len() > 0 && old(self)@[0] == c ==> r == Some(c) && final(self)@ == old(self)@.skip(
                1,
            ),
            !(old(self)@.len() > 0 && old(self)@[0] == c) ==> r is None && final(self)@ == old(self)@,
    {
        proof {
            use_type_invariant(&*self);
        }
        if self.pos < self.chars.len() && self.chars[self.pos] == c {
            self.pos = self.pos + 1;
            Some(c)
        } else {
            None
        }
    }

    /// Consumes the next character only when the predicate `c` accepts it.
    pub fn try_take_char_fn<F: Fn(char) -> bool>(&mut self, c: F) -> (r: Option<char>)
        requires
            old(self)@.len() > 0 ==> c.requires((old(self)@[0],)),
        ensures
            match r {
                Some(x) => old(self)@.len() > 0 && x == old(self)@[0] && c.ensures((x,), true)
                    && final(self)@ == old(self)@.skip(1),
                None => final(self)@ == old(self)@ && (old(self)@.len() == 0 || c.ensures(
                    (old(self)@[0],),
                    false,
                )),
            },
    {
        proof {
            use_type_invariant(&*self);
        }
        if self.pos < self.chars.len() {
            let x = self.chars[self.pos];
            if c(x) {
                self.pos = self.pos + 1;
                Some(x)
            } else {
                None
            }
        } else {
            None
        }
    }

    /// Consumes and returns the next character; the line must not end here.
    pub fn take(&mut self) -> (r: Result<char, ScannerError>)
        ensures
            match r {
                Ok(x) => old(self)@.len() > 0 && x == old(self)@[0] && final(self)@ == old(self)@.skip(1),
                Err(e) => old(self)@.len() == 0 && e == ScannerError::UnexpectedEndOfFile && final(self)@
                    == old(self)@,
            },
    {
        if let Some(x) = self.try_take() {
            Ok(x)
        } else {
            Err(ScannerError::UnexpectedEndOfFile)
        }
    }

    /// Consumes the leading run of spaces, which must not be empty.
    pub fn take_at_least_one_whitespace(&mut self) -> (r: Result<(), ScannerError>)
        ensures
            match r {
                Ok(()) => old(self)@.len() > 0 && old(self)@[0] == ' ' && final(self)@ == skip_spaces(
                    old(self)@,
                ),
                Err(e) => e == ScannerError::ExpectedAtLeastOnWhitespace && final(self)@ == old(self)@ && !(
                old(self)@.len() > 0 && old(self)@[0] == ' '),
            },
    {
        if self.try_take_char(' ').is_none() {
            return Err(ScannerError::ExpectedAtLeastOnWhitespace);
        }
        self.take_any_whitespace()
    }

    /// Consumes the leading run of spaces, possibly empty; never fails.
    pub fn take_any_whitespace(&mut self) -> (r: Result<(), ScannerError>)
        ensures
            r is Ok,
            final(self)@ == skip_spaces(old(self)@),
    {
        loop
            invariant
                skip_spaces(self@) == skip_spaces(old(self)@),
            decreases self@.len(),
        {
            if self.try_take_char(' ').is_none() {
                return Ok(());
            }
        }
    }

    /// Consumes the leading run of decimal digits, which must not be
    /// empty, and returns it.
    pub fn take_str_digits(&mut self) -> (r: Result<Vec<char>, ScannerError>)
        ensures
            match r {
                Ok(d) => d@.len() > 0 && d@ == digit_prefix(old(self)@) && final(self)@ == old(
                    self,
                )@.skip(d@.len() as int),
                Err(e) => e == ScannerError::ExpectedDigits && final(self)@ == old(self)@
                    && digit_prefix(old(self)@).len() == 0,
            },
    {
        let ghost s0 = self@;
        let mut d: Vec<char> = Vec::new();
        let starts_with_digit = match self.peek() {
            Some(c) => '0' <= c && c <= '9',
            None => false,
        };
        if !starts_with_digit {
            return Err(ScannerError::ExpectedDigits);
        }
        loop
            invariant
                s0 == old(self)@,
                s0 == d@ + self@,
                digit_prefix(s0) == d@ + digit_prefix(self@),
                d@.len() > 0 || (self@.len() > 0 && is_dec_digit(self@[0])),
            decreases self@.len(),
        {
            let ghost pre = self@;
            let ghost dpre = d@;
            let next_digit = match self.peek() {
                Some(c) => {
                    if '0' <= c && c <= '9' {
                        Some(c)
                    } else {
                        None
                    }
                },
                None => None,
            };
            match next_digit {
                Some(c) => {
                    self.try_take();
                    d.push(c);
                    proof {
                        assert(s0 =~= d@ + self@);
                        assert(dpre + digit_prefix(pre) =~= d@ + digit_prefix(self@));
                    }
                },
                None => {
                    proof {
                        assert(d@.len() > 0);
                        assert(digit_prefix(self@) =~= Seq::<char>::empty());
                        assert(digit_prefix(s0) =~= d@);
                        assert(self@ =~= s0.skip(d@.len() as int));
                    }
                    return Ok(d);
                },
            }
        }
    }

    /// Reads an unsigned decimal number, failing when no digit is present
    /// or the digits exceed `usize`.
    pub fn take_usize(&mut self) -> (r: Result<usize, ScannerError>)
        ensures
            r == spec_take_usize(old(self)@).0,
            final(self)@ == spec_take_usize(old(self)@).1,
    {
        let ghost s0 = self@;
        let d = match self.take_str_digits() {
            Ok(d) => d,
            Err(e) => {
                return Err(e);
            },
        };
        proof {
            lemma_digit_prefix_digits(s0);
        }
        let mut n: usize = 0;
        let mut i: usize = 0;
        while i < d.len()
            invariant
                s0 == old(self)@,
                self@ == s0.skip(digit_prefix(s0).len() as int),
                i <= d@.len(),
                d@ == digit_prefix(s0),
                d@.len() > 0,
                forall|j: int| 0 <= j < d@.len() ==> is_dec_digit(#[trigger] d@[j]),
                n == digits_value(d@.take(i as int)),
            decreases d@.len() - i,
        {
            let c = d[i];
            let dv = (c as u32 - '0' as u32) as usize;
            proof {
                assert(d@.take(i + 1).take(i as int) =~= d@.take(i as int));
                assert(d@.take(i + 1)[i as int] == d@[i as int]);
                lemma_digits_value_nonneg(d@.take(i as int));
            }
            if n > usize::MAX / 10 || (n == usize::MAX / 10 && dv > usize::MAX % 10) {
                proof {
                    assert(digits_value(d@.take(i + 1)) == n * 10 + dv);
                    assert(n * 10 + dv > usize::MAX);
                    lemma_digits_value_monotone(d@, i + 1);
                }
                return Err(ScannerError::UsizeFormat);
            }
            proof {
                assert(n * 10 + dv <= usize::MAX);
            }
            n = n * 10 + dv;
            i = i + 1;
        }
        proof {
            assert(d@.take(d@.len() as int) =~= d@);
        }
        Ok(n)
    }

    /// Reads a signed decimal literal (`-`? digits (`.` digits)?) and
    /// returns its characters unchanged, for the caller to convert.
    pub fn take_float_digits(&mut self) -> (r: Result<Vec<char>, ScannerError>)
        ensures
            final(self)@ == spec_take_float_digits(old(self)@).1,
            (match (r, spec_take_float_digits(old(self)@).0) {
                (Ok(d), Ok(d2)) => d@ == d2,
                (Err(e), Err(e2)) => e == e2,
                _ => false,
            }),
    {
        let ghost s0 = self@;
        let has_sign = self.try_take_char('-').is_some();
        let mut d1 = match self.take_str_digits() {
            Ok(d) => d,
            Err(e) => {
                return Err(e);
            },
        };
        let mut out: Vec<char> = Vec::new();
        if has_sign {
            out.push('-');
        }
        out.append(&mut d1);
        if self.try_take_char('.').is_some() {
            let mut d2 = match self.take_str_digits() {
                Ok(d) => d,
                Err(e) => {
                    return Err(e);
                },
            };
            out.push('.');
            out.append(&mut d2);
            proof {
                assert(out@ =~= spec_take_float_digits(s0).0->Ok_0);
            }
            Ok(out)
        } else {
            proof {
                assert(out@ =~= spec_take_float_digits(s0).0->Ok_0);
            }
            Ok(out)
        }
    }

    /// Reads one face vertex reference (`p`, `p/t`, `p//n` or `p/t/n`,
    /// indices one-based) and returns it with zero-based indices.
    pub fn take_vertex(&mut self) -> (r: Result<Vertex, ScannerError>)
        ensures
            final(self)@ == spec_take_vertex(old(self)@).1,
            (match (r, spec_take_vertex(old(self)@).0) {
                (Ok(v), Ok(v2)) => v == v2,
                (Err(e), Err(e2)) => e == e2,
                _ => false,
            }),
    {
        let n = match self.take_usize() {
            Ok(n) => n,
            Err(e) => {
                return Err(e);
            },
        };
        if n == 0 {
            return Err(ScannerError::PosIdOutOfRange(0));
        }
        let pos_id = n - 1;
        let _ = self.take_any_whitespace();
        if self.try_take_char('/').is_some() {
            let _ = self.take_any_whitespace();
            if self.try_take_char('/').is_some() {
                let _ = self.take_any_whitespace();
                let m = match self.take_usize() {
                    Ok(m) => m,
                    Err(e) => {
                        return Err(e);
                    },
                };
                if m == 0 {
                    return Err(ScannerError::NorIdOutOfRange(0));
                }
                Ok((pos_id, None, Some(m - 1)))
            } else {
                let m = match self.take_usize() {
                    Ok(m) => m,
                    Err(e) => {
                        return Err(e);
                    },
                };
                if m == 0 {
                    return Err(ScannerError::TexIdOutOfRange(0));
                }
                let uv_id = m - 1;
                let _ = self.take_any_whitespace();
                if self.try_take_char('/').is_some() {
                    let _ = self.take_any_whitespace();
                    let k = match self.take_usize() {
                        Ok(k) => k,
                        Err(e) => {
                            return Err(e);
                        },
                    };
                    if k == 0 {
                        return Err(ScannerError::NorIdOutOfRange(0));
                    }
                    Ok((pos_id, Some(uv_id), Some(k - 1)))
                } else {
                    Ok((pos_id, Some(uv_id), None))
                }
            }
        } else {
            Ok((pos_id, None, None))
        }
    }

    /// Reads three space-preceded decimal literals, as written.
    pub fn take_vec3_digits(&mut self) -> (r: Result<crate::vec3::Vec3<Vec<char>>, ScannerError>)
        ensures
            final(self)@ == spec_take_vec3(old(self)@).1,
            (match (r, spec_take_vec3(old(self)@).0) {
                (Ok(v), Ok(v2)) => v.e@[0]@ == v2.0 && v.e@[1]@ == v2.1 && v.e@[2]@ == v2.2,
                (Err(e), Err(e2)) => e == e2,
                _ => false,
            }),
    {
        match self.take_at_least_one_whitespace() {
            Ok(_) => (),
            Err(e) => {
                return Err(e);
            },
        }
        let x = match self.take_float_digits() {
            Ok(x) => x,
            Err(e) => {
                return Err(e);
            },
        };
        match self.take_at_least_one_whitespace() {
            Ok(_) => (),
            Err(e) => {
                return Err(e);
            },
        }
        let y = match self.take_float_digits() {
            Ok(y) => y,
            Err(e) => {
                return Err(e);
            },
        };
        match self.take_at_least_one_whitespace() {
            Ok(_) => (),
            Err(e) => {
                return Err(e);
            },
        }
        let z = match self.take_float_digits() {
            Ok(z) => z,
            Err(e) => {
                return Err(e);
            },
        };
        Ok(crate::vec3::Vec3::new(x, y, z))
    }

    /// Reads two space-preceded decimal literals, as written.
    pub fn take_vec2_digits(&mut self) -> (r: Result<crate::vec2::Vec2<Vec<char>>, ScannerError>)
        ensures
            final(self)@ == spec_take_vec2(old(self)@).1,
            (match (r, spec_take_vec2(old(self)@).0) {
                (Ok(v), Ok(v2)) => v.x@ == v2.0 && v.y@ == v2.1,
                (Err(e), Err(e2)) => e == e2,
                _ => false,
            }),
    {
        match self.take_at_least_one_whitespace() {
            Ok(_) => (),
            Err(e) => {
                return Err(e);
            },
        }
        let x = match self.take_float_digits() {
            Ok(x) => x,
            Err(e) => {
                return Err(e);
            },
        };
        match self.take_at_least_one_whitespace() {
            Ok(_) => (),
            Err(e) => {
                return Err(e);
            },
        }
        let y = match self.take_float_digits() {
            Ok(y) => y,
            Err(e) => {
                return Err(e);
            },
        };
        Ok(crate::vec2::Vec2::new(x, y))
    }

    /// Reads one whole line of OBJ text and classifies it.
    #[verifier::loop_isolation(false)]
    pub fn take_line_type(&mut self) -> (r: Result<LineType, ScannerError>)
        ensures
            final(self)@ == spec_take_line_type(old(self)@).1,
            (match (r, spec_take_line_type(old(self)@).0) {
                (Ok(l), Ok(m)) => line_matches(l, m),
                (Err(e), Err(e2)) => e == e2,
                _ => false,
            }),
    {
        let first = self.peek();
        let c = match first {
            Some(c) => c,
            None => {
                return Ok(LineType::Unknown);
            },
        };
        if c == 'v' {
            self.try_take();
            let second = self.peek();
            let is_n = match second {
                Some(c2) => c2 == 'n',
                None => false,
            };
            let is_t = match second {
                Some(c2) => c2 == 't',
                None => false,
            };
            if is_n {
                self.try_take();
                match self.take_vec3_digits() {
                    Ok(v) => Ok(LineType::Vn(v)),
                    Err(e) => Err(e),
                }
            } else if is_t {
                self.try_take();
                match self.take_vec2_digits() {
                    Ok(v) => Ok(LineType::Vt(v)),
                    Err(e) => Err(e),
                }
            } else {
                match self.take_vec3_digits() {
                    Ok(v) => Ok(LineType::V(v)),
                    Err(e) => Err(e),
                }
            }
        } else if c == 'f' {
            self.try_take();
            match self.take_at_least_one_whitespace() {
                Ok(_) => (),
                Err(e) => {
                    return Err(e);
                },
            }
            let ghost sf = self@;
            let mut vertex_ids: Vec<Vertex> = Vec::new();
            loop
                invariant
                    ({
                        let (fr, frest) = spec_take_faces(self@);
                        spec_take_faces(sf).1 == frest && spec_take_faces(sf).0 == (match fr {
                            Ok(vs) => Result::<Seq<Vertex>, ScannerError>::Ok(vertex_ids@ + vs),
                            Err(e) => Err(e),
                        })
                    }),
                decreases self@.len(),
            {
                let done = match self.peek() {
                    Some(_) => false,
                    None => true,
                };
                if done {
                    proof {
                        assert(vertex_ids@ + Seq::<Vertex>::empty() =~= vertex_ids@);
                    }
                    return Ok(LineType::F(vertex_ids));
                }
                let ghost pre = self@;
                let v = match self.take_vertex() {
                    Ok(v) => v,
                    Err(e) => {
                        return Err(e);
                    },
                };
                let ghost ids_pre = vertex_ids@;
                vertex_ids.push(v);
                let _ = self.take_any_whitespace();
                proof {
                    lemma_spec_take_vertex_consumes(pre);
                    lemma_skip_spaces_len(spec_take_vertex(pre).1);
                    assert(ids_pre.push(v) =~= ids_pre + seq![v]);
                    let (fr, frest) = spec_take_faces(self@);
                    if fr is Ok {
                        let vs = fr->Ok_0;
                        assert(ids_pre + (seq![v] + vs) =~= (ids_pre + seq![v]) + vs);
                    }
                }
            }
        } else if c == '#' {
            self.try_take();
            Ok(LineType::Comment)
        } else if c == 'o' {
            self.try_take();
            Ok(LineType::Object)
        } else {
            Ok(LineType::Unknown)
        }
    }

}

} // verus!
