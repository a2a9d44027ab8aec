//! Text form of points, spans and fix-it hints, and the parsers that read it back.

use vstd::prelude::*;
use crate::diagnostic::{FixingSuggestion, TextPoint, TextSpan};
use crate::scan::{lemma_number_at_dec, number_at, read_number};
use crate::text::{
    chars_of, dec, decimal, is_digit, lemma_dec, matches_at, occurs_at, push_all, string_of,
};

verus! {

/// `LINE:COLUMN` at `i`, with the index after it.
pub open spec fn point_at(s: Seq<char>, i: int) -> Option<(TextPoint, int)> {
    match number_at(s, i) {
        Some((line, j)) => if j < s.len() && s[j] == ':' {
            match number_at(s, j + 1) {
                Some((column, k)) => Some((TextPoint { line, column }, k)),
                None => None,
            }
        } else {
            None
        },
        None => None,
    }
}

/// `POINT-POINT` at `i`, with the index after it.
pub open spec fn span_at(s: Seq<char>, i: int) -> Option<(TextSpan, int)> {
    match point_at(s, i) {
        Some((start, j)) => if j < s.len() && s[j] == '-' {
            match point_at(s, j + 1) {
                Some((end, k)) => Some((TextSpan { start, end }, k)),
                None => None,
            }
        } else {
            None
        },
        None => None,
    }
}

/// Characters that stand in a quoted string only behind a backslash.
pub open spec fn is_special(c: char) -> bool {
    c == ':' || c == '"' || c == '\\' || c == ' ' || c == '\t' || c == '\r' || c == '\n'
}

/// What a backslash followed by `c` stands for.
pub open spec fn escaped(c: char) -> Option<char> {
    if c == ':' || c == '"' || c == '\\' || c == ' ' {
        Some(c)
    } else if c == '\t' {
        Some('t')
    } else if c == '\r' {
        Some('r')
    } else if c == '\n' {
        Some('n')
    } else {
        None
    }
}

/// The body of a quoted string from `i` up to its closing quote: the text it
/// stands for, and the index of that quote.
pub open spec fn quoted_body(s: Seq<char>, i: int) -> Option<(Seq<char>, int)>
    decreases s.len() - i,
{
    if i < 0 || i >= s.len() {
        None
    } else if s[i] == '"' {
        Some((Seq::empty(), i))
    } else if s[i] == '\\' {
        if i + 1 < s.len() {
            match escaped(s[i + 1]) {
                Some(c) => match quoted_body(s, i + 2) {
                    Some((t, e)) => Some((seq![c] + t, e)),
                    None => None,
                },
                None => None,
            }
        } else {
            None
        }
    } else if is_special(s[i]) {
        None
    } else {
        match quoted_body(s, i + 1) {
            Some((t, e)) => Some((seq![s[i]] + t, e)),
            None => None,
        }
    }
}

/// A quoted string at `i`: the text it stands for and the index after it.
pub open spec fn quoted_at(s: Seq<char>, i: int) -> Option<(Seq<char>, int)> {
    if 0 <= i < s.len() && s[i] == '"' {
        match quoted_body(s, i + 1) {
            Some((t, e)) => Some((t, e + 1)),
            None => None,
        }
    } else {
        None
    }
}

/// `fix-it:"FILE":{SPAN}:"TEXT"` at `i`: file, span, text and the index after it.
pub open spec fn fixit_at(s: Seq<char>, i: int) -> Option<(Seq<char>, TextSpan, Seq<char>, int)> {
    if occurs_at(s, i, "fix-it:"@) {
        match quoted_at(s, i + 7) {
            Some((file, j)) => if occurs_at(s, j, ":{"@) {
                match span_at(s, j + 2) {
                    Some((span, k)) => if occurs_at(s, k, "}:"@) {
                        match quoted_at(s, k + 2) {
                            Some((text, m)) => Some((file, span, text, m)),
                            None => None,
                        }
                    } else {
                        None
                    },
                    None => None,
                }
            } else {
                None
            },
            None => None,
        }
    } else {
        None
    }
}

/// Text written with a backslash before each special character.
pub open spec fn escape(t: Seq<char>) -> Seq<char>
    decreases t.len(),
{
    if t.len() == 0 {
        Seq::empty()
    } else {
        let rest = escape(t.drop_first());
        if is_special(t[0]) {
            seq!['\\', t[0]] + rest
        } else {
            seq![t[0]] + rest
        }
    }
}

pub open spec fn quote(t: Seq<char>) -> Seq<char> {
    seq!['"'] + escape(t) + seq!['"']
}

pub open spec fn point_text(p: TextPoint) -> Seq<char> {
    dec(p.line as nat) + seq![':'] + dec(p.column as nat)
}

pub open spec fn span_text(sp: TextSpan) -> Seq<char> {
    point_text(sp.start) + seq!['-'] + point_text(sp.end)
}

pub open spec fn fixit_text(file: Seq<char>, span: TextSpan, text: Seq<char>) -> Seq<char> {
    "fix-it:"@ + quote(file) + ":{"@ + span_text(span) + "}:"@ + quote(text)
}

/// Text that a quoted string can carry back unchanged: no tab, carriage
/// return or line feed.
pub open spec fn quotable(t: Seq<char>) -> bool {
    forall|i: int| 0 <= i < t.len() ==> t[i] != '\t' && t[i] != '\r' && t[i] != '\n'
}

impl TextPoint {
    /// Reads `LINE:COLUMN` at `from`; gives the point and the index after it.
    pub fn parse_at(s: &Vec<char>, from: usize) -> (r: Option<(TextPoint, usize)>)
        requires
            from <= s@.len(),
        ensures
            match point_at(s@, from as int) {
                Some((p, e)) => from < e <= s@.len() && r == Some((p, e as usize)),
                None => r is None,
            },
    {
        match read_number(s, from) {
            Some((line, j)) => {
                if j < s.len() && s[j] == ':' {
                    match read_number(s, j + 1) {
                        Some((column, k)) => Some((TextPoint { line, column }, k)),
                        None => None,
                    }
                } else {
                    None
                }
            },
            None => None,
        }
    }

    /// `LINE:COLUMN`.
    pub fn to_text(&self) -> (r: Vec<char>)
        ensures
            r@ == point_text(*self),
    {
        let mut out = decimal(self.line as u64);
        out.push(':');
        let c = decimal(self.column as u64);
        push_all(&mut out, &c);
        out
    }
}

impl TextSpan {
    /// Reads `LINE:COLUMN-LINE:COLUMN` at `from`; gives the span and the index after it.
    pub fn parse_at(s: &Vec<char>, from: usize) -> (r: Option<(TextSpan, usize)>)
        requires
            from <= s@.len(),
        ensures
            match span_at(s@, from as int) {
                Some((sp, e)) => from < e <= s@.len() && r == Some((sp, e as usize)),
                None => r is None,
            },
    {
        match TextPoint::parse_at(s, from) {
            Some((start, j)) => {
                if j < s.len() && s[j] == '-' {
                    match TextPoint::parse_at(s, j + 1) {
                        Some((end, k)) => Some((TextSpan { start, end }, k)),
                        None => None,
                    }
                } else {
                    None
                }
            },
            None => None,
        }
    }

    /// `START-END`.
    pub fn to_text(&self) -> (r: Vec<char>)
        ensures
            r@ == span_text(*self),
    {
        let mut out = self.start.to_text();
        out.push('-');
        let e = self.end.to_text();
        push_all(&mut out, &e);
        out
    }
}

fn is_special_char(c: char) -> (r: bool)
    ensures
        r == is_special(c),
{
    c == ':' || c == '"' || c == '\\' || c == ' ' || c == '\t' || c == '\r' || c == '\n'
}

fn escaped_char(c: char) -> (r: Option<char>)
    ensures
        r == escaped(c),
{
    if c == ':' || c == '"' || c == '\\' || c == ' ' {
        Some(c)
    } else if c == '\t' {
        Some('t')
    } else if c == '\r' {
        Some('r')
    } else if c == '\n' {
        Some('n')
    } else {
        None
    }
}

/// Reads a quoted string at `from`; gives the text it stands for and the index after it.
pub fn read_quoted(s: &Vec<char>, from: usize) -> (r: Option<(Vec<char>, usize)>)
    requires
        from <= s@.len(),
    ensures
        match quoted_at(s@, from as int) {
            Some((t, e)) => r is Some && (r->0).0@ == t && (r->0).1 as int == e,
            None => r is None,
        },
        r is Some ==> (r->0).1 <= s@.len(),
{
    if from >= s.len() || s[from] != '"' {
        return None;
    }
    let mut out: Vec<char> = Vec::new();
    let mut i = from + 1;
    while i < s.len() && s[i] != '"'
        invariant
            from < i <= s@.len(),
            s@[from as int] == '"',
            match quoted_body(s@, i as int) {
                Some((t, e)) => quoted_body(s@, from + 1) == Some((out@ + t, e)),
                None => quoted_body(s@, from + 1) is None,
            },
        decreases s@.len() - i,
    {
        let c = s[i];
        if c == '\\' {
            if i + 1 >= s.len() {
                return None;
            }
            match escaped_char(s[i + 1]) {
                Some(e) => {
                    proof {
                        match quoted_body(s@, i + 2) {
                            Some((t, _)) => {
                                assert(out@.push(e) + t =~= out@ + (seq![e] + t));
                            },
                            None => {},
                        }
                    }
                    out.push(e);
                    i = i + 2;
                },
                None => {
                    return None;
                },
            }
        } else if is_special_char(c) {
            return None;
        } else {
            proof {
                match quoted_body(s@, i + 1) {
                    Some((t, _)) => {
                        assert(out@.push(c) + t =~= out@ + (seq![c] + t));
                    },
                    None => {},
                }
            }
            out.push(c);
            i = i + 1;
        }
    }
    if i >= s.len() {
        return None;
    }
    proof {
        assert(out@ + Seq::<char>::empty() =~= out@);
    }
    Some((out, i + 1))
}

/// Writes `t` between quotes, with a backslash before each special character.
pub fn push_quoted(out: &mut Vec<char>, t: &Vec<char>)
    ensures
        final(out)@ == old(out)@ + quote(t@),
{
    out.push('"');
    let ghost start = out@;
    proof {
        assert(t@.subrange(0, t@.len() as int) =~= t@);
    }
    let mut i: usize = 0;
    while i < t.len()
        invariant
            i <= t@.len(),
            start == old(out)@ + seq!['"'],
            out@ + escape(t@.subrange(i as int, t@.len() as int)) == start + escape(t@),
        decreases t@.len() - i,
    {
        let c = t[i];
        let ghost before = out@;
        proof {
            let rest = t@.subrange(i as int, t@.len() as int);
            assert(rest.drop_first() =~= t@.subrange(i + 1, t@.len() as int));
            assert(rest[0] == c);
        }
        if is_special_char(c) {
            out.push('\\');
            out.push(c);
            proof {
                let r1 = escape(t@.subrange(i + 1, t@.len() as int));
                assert(out@ + r1 =~= before + (seq!['\\', c] + r1));
            }
        } else {
            out.push(c);
            proof {
                let r1 = escape(t@.subrange(i + 1, t@.len() as int));
                assert(out@ + r1 =~= before + (seq![c] + r1));
            }
        }
        i = i + 1;
    }
    proof {
        assert(t@.subrange(i as int, t@.len() as int) =~= Seq::<char>::empty());
        assert(out@ + Seq::<char>::empty() =~= out@);
    }
    out.push('"');
    proof {
        assert(out@ =~= old(out)@ + quote(t@));
    }
}

impl FixingSuggestion {
    /// Reads a fix-it hint at `from`; gives it and the index after it.
    pub fn parse_at(s: &Vec<char>, from: usize) -> (r: Option<(FixingSuggestion, usize)>)
        requires
            from <= s@.len(),
        ensures
            match fixit_at(s@, from as int) {
                Some((file, span, text, e)) => r is Some && (r->0).0.file@ == file
                    && (r->0).0.span == span && (r->0).0.text@ == text && (r->0).1 as int == e,
                None => r is None,
            },
    {
        let n = s.len();
        let head = chars_of("fix-it:");
        proof {
            reveal_strlit("fix-it:");
            assert(head@.len() == 7);
        }
        if !matches_at(s, from, &head) {
            return None;
        }
        assert(from + 7 <= n);
        let (file, j) = match read_quoted(s, from + 7) {
            Some(q) => q,
            None => { return None; },
        };
        let open_brace = chars_of(":{");
        proof {
            reveal_strlit(":{");
            assert(open_brace@.len() == 2);
        }
        if !matches_at(s, j, &open_brace) {
            return None;
        }
        assert(j + 2 <= n);
        let (span, k) = match TextSpan::parse_at(s, j + 2) {
            Some(q) => q,
            None => { return None; },
        };
        let close_brace = chars_of("}:");
        proof {
            reveal_strlit("}:");
            assert(close_brace@.len() == 2);
        }
        if !matches_at(s, k, &close_brace) {
            return None;
        }
        let (text, m) = match read_quoted(s, k + 2) {
            Some(q) => q,
            None => { return None; },
        };
        let file = string_of(&file);
        let text = string_of(&text);
        Some((FixingSuggestion { file, span, text }, m))
    }

    /// Reads a text that holds exactly one fix-it hint.
    pub fn parse(s: &str) -> (r: Option<FixingSuggestion>)
        ensures
            match fixit_at(s@, 0) {
                Some((file, span, text, e)) => if e == s@.len() {
                    r is Some && (r->0).file@ == file && (r->0).span == span && (r->0).text@ == text
                } else {
                    r is None
                },
                None => r is None,
            },
    {
        let cs = chars_of(s);
        match FixingSuggestion::parse_at(&cs, 0) {
            Some((f, e)) => if e == cs.len() {
                Some(f)
            } else {
                None
            },
            None => None,
        }
    }

    /// `fix-it:"FILE":{SPAN}:"TEXT"`, with a backslash before each special
    /// character of the file and the text.
    pub fn to_text(&self) -> (r: String)
        ensures
            r@ == fixit_text(self.file@, self.span, self.text@),
    {
        let mut out = chars_of("fix-it:");
        let file = chars_of(self.file.as_str());
        push_quoted(&mut out, &file);
        out.push(':');
        out.push('{');
        let sp = self.span.to_text();
        push_all(&mut out, &sp);
        out.push('}');
        out.push(':');
        let text = chars_of(self.text.as_str());
        push_quoted(&mut out, &text);
        proof {
            reveal_strlit(":{");
            reveal_strlit("}:");
            assert(out@ =~= fixit_text(self.file@, self.span, self.text@));
        }
        string_of(&out)
    }
}

/// A quoted text, as `push_quoted` writes it, reads back as the text.
pub proof fn lemma_quoted_body(s: Seq<char>, i: int, t: Seq<char>)
    requires
        quotable(t),
        0 <= i,
        i + escape(t).len() < s.len(),
        s.subrange(i, i + escape(t).len() + 1) == escape(t).push('"'),
    ensures
        quoted_body(s, i) == Some((t, i + escape(t).len())),
    decreases t.len(),
{
    let esc = escape(t);
    assert(s[i] == s.subrange(i, i + esc.len() + 1)[0]);
    if t.len() == 0 {
        assert(esc.len() == 0);
    } else {
        let c = t[0];
        let t1 = t.drop_first();
        let e1 = escape(t1);
        assert(quotable(t1)) by {
            assert forall|k: int| 0 <= k < t1.len() implies t1[k] != '\t' && t1[k] != '\r'
                && t1[k] != '\n' by {
                assert(t1[k] == t[k + 1]);
            }
        }
        assert(c != '\t' && c != '\r' && c != '\n');
        if is_special(c) {
            assert(esc == seq!['\\', c] + e1);
            assert(s[i + 1] == s.subrange(i, i + esc.len() + 1)[1]);
            assert(s.subrange(i + 2, i + 2 + e1.len() + 1) =~= e1.push('"')) by {
                assert forall|k: int| 0 <= k < e1.len() + 1 implies s.subrange(i + 2, i + 2 + e1.len() + 1)[k]
                    == e1.push('"')[k] by {
                    assert(s.subrange(i + 2, i + 2 + e1.len() + 1)[k] == s.subrange(i, i + esc.len() + 1)[k + 2]);
                }
            }
            lemma_quoted_body(s, i + 2, t1);
            assert(seq![c] + t1 =~= t);
        } else {
            assert(esc == seq![c] + e1);
            assert(s.subrange(i + 1, i + 1 + e1.len() + 1) =~= e1.push('"')) by {
                assert forall|k: int| 0 <= k < e1.len() + 1 implies s.subrange(i + 1, i + 1 + e1.len() + 1)[k]
                    == e1.push('"')[k] by {
                    assert(s.subrange(i + 1, i + 1 + e1.len() + 1)[k] == s.subrange(i, i + esc.len() + 1)[k + 1]);
                }
            }
            lemma_quoted_body(s, i + 1, t1);
            assert(seq![c] + t1 =~= t);
        }
    }
}

/// A point in text form, followed by no digit, reads back as the point.
pub proof fn lemma_point_at(s: Seq<char>, i: int, p: TextPoint)
    requires
        0 <= i,
        i + point_text(p).len() <= s.len(),
        s.subrange(i, i + point_text(p).len()) == point_text(p),
        i + point_text(p).len() < s.len() ==> !is_digit(s[i + point_text(p).len()]),
    ensures
        point_at(s, i) == Some((p, i + point_text(p).len())),
{
    let a = dec(p.line as nat);
    let b = dec(p.column as nat);
    let pt = point_text(p);
    let j = i + a.len();
    assert(s.subrange(i, j) =~= a) by {
        assert forall|k: int| 0 <= k < a.len() implies s.subrange(i, j)[k] == a[k] by {
            assert(s.subrange(i, j)[k] == s.subrange(i, i + pt.len())[k]);
            assert(pt[k] == a[k]);
        }
    }
    assert(s[j] == ':') by {
        assert(s[j] == s.subrange(i, i + pt.len())[a.len() as int]);
        assert(pt[a.len() as int] == ':');
    }
    lemma_number_at_dec(s, i, p.line);
    assert(s.subrange(j + 1, j + 1 + b.len()) =~= b) by {
        assert forall|k: int| 0 <= k < b.len() implies s.subrange(j + 1, j + 1 + b.len())[k] == b[k] by {
            assert(s.subrange(j + 1, j + 1 + b.len())[k] == s.subrange(i, i + pt.len())[a.len() + 1 + k]);
            assert(pt[a.len() + 1 + k] == b[k]);
        }
    }
    lemma_number_at_dec(s, j + 1, p.column);
}

/// A span in text form, followed by no digit, reads back as the span.
pub proof fn lemma_span_at(s: Seq<char>, i: int, sp: TextSpan)
    requires
        0 <= i,
        i + span_text(sp).len() <= s.len(),
        s.subrange(i, i + span_text(sp).len()) == span_text(sp),
        i + span_text(sp).len() < s.len() ==> !is_digit(s[i + span_text(sp).len()]),
    ensures
        span_at(s, i) == Some((sp, i + span_text(sp).len())),
{
    let a = point_text(sp.start);
    let b = point_text(sp.end);
    let st = span_text(sp);
    let j = i + a.len();
    assert(s.subrange(i, j) =~= a) by {
        assert forall|k: int| 0 <= k < a.len() implies s.subrange(i, j)[k] == a[k] by {
            assert(s.subrange(i, j)[k] == s.subrange(i, i + st.len())[k]);
            assert(st[k] == a[k]);
        }
    }
    assert(s[j] == '-') by {
        assert(s[j] == s.subrange(i, i + st.len())[a.len() as int]);
        assert(st[a.len() as int] == '-');
    }
    lemma_point_at(s, i, sp.start);
    assert(s.subrange(j + 1, j + 1 + b.len()) =~= b) by {
        assert forall|k: int| 0 <= k < b.len() implies s.subrange(j + 1, j + 1 + b.len())[k] == b[k] by {
            assert(s.subrange(j + 1, j + 1 + b.len())[k] == s.subrange(i, i + st.len())[a.len() + 1 + k]);
            assert(st[a.len() + 1 + k] == b[k]);
        }
    }
    lemma_point_at(s, j + 1, sp.end);
}

/// A fix-it hint in the text form that `FixingSuggestion::to_text` writes reads
/// back, by `FixingSuggestion::parse`, as the same file, span and text, whenever
/// neither the file nor the text holds a tab, a carriage return or a line feed.
pub proof fn lemma_fixit_round_trip(file: Seq<char>, span: TextSpan, text: Seq<char>)
    requires
        quotable(file),
        quotable(text),
    ensures
        fixit_at(fixit_text(file, span, text), 0) == Some(
            (file, span, text, fixit_text(file, span, text).len() as int),
        ),
{
    reveal_strlit("fix-it:");
    reveal_strlit(":{");
    reveal_strlit("}:");
    let s = fixit_text(file, span, text);
    let q1 = quote(file);
    let st = span_text(span);
    let q2 = quote(text);
    let e1 = escape(file);
    let e2 = escape(text);
    let n1 = e1.len() as int;
    let n2 = e2.len() as int;
    let j: int = 7 + q1.len() as int;
    let k: int = j + 2 + st.len() as int;
    assert(s =~= "fix-it:"@ + q1 + ":{"@ + st + "}:"@ + q2);
    assert(s.len() == k + 2 + q2.len());
    assert(s.subrange(0, 7) =~= "fix-it:"@);
    assert(s[7] == '"');
    assert(s.subrange(8, 8 + n1 + 1) =~= e1.push('"'));
    lemma_quoted_body(s, 8, file);
    assert(quoted_at(s, 7) == Some((file, j)));
    assert(s.subrange(j, j + 2) =~= ":{"@);
    assert(s.subrange(j + 2, j + 2 + st.len()) =~= st);
    assert(s[k] == '}');
    lemma_span_at(s, j + 2, span);
    assert(s.subrange(k, k + 2) =~= "}:"@);
    assert(s[k + 2] == '"');
    assert(s.subrange(k + 3, k + 3 + n2 + 1) =~= e2.push('"'));
    lemma_quoted_body(s, k + 3, text);
}


/// What a quoted string stands for holds no tab, carriage return or line
/// feed: those characters stand in it only behind a backslash, which reads
/// them as letters.
pub proof fn lemma_quoted_body_quotable(s: Seq<char>, i: int)
    requires
        quoted_body(s, i) is Some,
    ensures
        quotable((quoted_body(s, i)->0).0),
    decreases s.len() - i,
{
    if 0 <= i < s.len() && s[i] != '"' {
        if s[i] == '\\' {
            lemma_quoted_body_quotable(s, i + 2);
            let c = escaped(s[i + 1])->0;
            let t = (quoted_body(s, i + 2)->0).0;
            assert forall|k: int| 0 <= k < (seq![c] + t).len() implies (seq![c] + t)[k] != '\t' && (seq![c] + t)[k] != '\r'
                && (seq![c] + t)[k] != '\n' by {
                if k > 0 {
                    assert((seq![c] + t)[k] == t[k - 1]);
                }
            }
        } else {
            lemma_quoted_body_quotable(s, i + 1);
            let t = (quoted_body(s, i + 1)->0).0;
            assert forall|k: int| 0 <= k < (seq![s[i]] + t).len() implies (seq![s[i]] + t)[k] != '\t' && (seq![s[i]]
                + t)[k] != '\r' && (seq![s[i]] + t)[k] != '\n' by {
                if k > 0 {
                    assert((seq![s[i]] + t)[k] == t[k - 1]);
                }
            }
        }
    } else {
        assert((quoted_body(s, i)->0).0 =~= Seq::<char>::empty());
    }
}

/// Every fix-it hint that `FixingSuggestion::parse` reads, written again by
/// `FixingSuggestion::to_text`, reads back as the same file, span and text.
pub proof fn lemma_parsed_fixit_round_trip(s: Seq<char>)
    requires
        fixit_at(s, 0) is Some,
    ensures
        ({
            let (file, span, text, _) = fixit_at(s, 0)->0;
            fixit_at(fixit_text(file, span, text), 0) == Some((file, span, text, fixit_text(file, span, text).len() as int))
        }),
{
    let (file, span, text, _) = fixit_at(s, 0)->0;
    let j = (quoted_at(s, 7)->0).1;
    let k = (span_at(s, j + 2)->0).1;
    lemma_quoted_body_quotable(s, 8);
    lemma_quoted_body_quotable(s, k + 3);
    lemma_fixit_round_trip(file, span, text);
}

} // verus!
