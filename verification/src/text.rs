use vstd::prelude::*;

verus! {

/// Whether `c` has the Unicode `White_Space` property, the set that
/// `char::is_whitespace` and `str::trim` go by: U+0009..=U+000D, U+0020,
/// U+0085, U+00A0, U+1680, U+2000..=U+200A, U+2028, U+2029, U+202F, U+205F
/// and U+3000.
pub open spec fn is_white_space(c: char) -> bool {
    let n = c as u32;
    ||| 0x09 <= n <= 0x0D
    ||| n == 0x20
    ||| n == 0x85
    ||| n == 0xA0
    ||| n == 0x1680
    ||| 0x2000 <= n <= 0x200A
    ||| n == 0x2028
    ||| n == 0x2029
    ||| n == 0x202F
    ||| n == 0x205F
    ||| n == 0x3000
}

/// Whether `c` is white space.
pub fn char_is_whitespace(c: char) -> (r: bool)
    ensures
        r == is_white_space(c),
{
    match c {
        '\u{9}'..='\u{D}' | ' ' | '\u{85}' | '\u{A0}' | '\u{1680}' | '\u{2000}'..='\u{200A}'
        | '\u{2028}' | '\u{2029}' | '\u{202F}' | '\u{205F}' | '\u{3000}' => true,
        _ => false,
    }
}

/// `s` without its leading white space.
pub open spec fn trim_front(s: Seq<char>) -> Seq<char>
    decreases s.len(),
{
    if s.len() > 0 && is_white_space(s[0]) {
        trim_front(s.drop_first())
    } else {
        s
    }
}

/// `s` without its trailing white space.
pub open spec fn trim_back(s: Seq<char>) -> Seq<char>
    decreases s.len(),
{
    if s.len() > 0 && is_white_space(s.last()) {
        trim_back(s.drop_last())
    } else {
        s
    }
}

/// `s` without leading and trailing white space.
pub open spec fn trim_spec(s: Seq<char>) -> Seq<char> {
    trim_back(trim_front(s))
}

proof fn lemma_trim_front_piece(s: Seq<char>) -> (a: int)
    ensures
        0 <= a <= s.len(),
        trim_front(s) == s.subrange(a, s.len() as int),
        a < s.len() ==> !is_white_space(s[a]),
        forall|k: int| 0 <= k < a ==> is_white_space(#[trigger] s[k]),
    decreases s.len(),
{
    if s.len() > 0 && is_white_space(s[0]) {
        let a = lemma_trim_front_piece(s.drop_first());
        assert(s.drop_first().subrange(a, s.drop_first().len() as int) =~= s.subrange(
            a + 1,
            s.len() as int,
        ));
        if a + 1 < s.len() {
            assert(s[a + 1] == s.drop_first()[a]);
        }
        assert forall|k: int| 0 <= k < a + 1 implies is_white_space(#[trigger] s[k]) by {
            if k > 0 {
                assert(s[k] == s.drop_first()[k - 1]);
            }
        }
        a + 1
    } else {
        assert(s.subrange(0, s.len() as int) =~= s);
        0
    }
}

proof fn lemma_trim_back_piece(s: Seq<char>) -> (b: int)
    ensures
        0 <= b <= s.len(),
        trim_back(s) == s.subrange(0, b),
        b > 0 ==> !is_white_space(s[b - 1]),
        forall|k: int| b <= k < s.len() ==> is_white_space(#[trigger] s[k]),
    decreases s.len(),
{
    if s.len() > 0 && is_white_space(s.last()) {
        let b = lemma_trim_back_piece(s.drop_last());
        assert(s.drop_last().subrange(0, b) =~= s.subrange(0, b));
        if b > 0 {
            assert(s[b - 1] == s.drop_last()[b - 1]);
        }
        assert forall|k: int| b <= k < s.len() implies is_white_space(#[trigger] s[k]) by {
            if k < s.len() - 1 {
                assert(s[k] == s.drop_last()[k]);
            }
        }
        b
    } else {
        assert(s.subrange(0, s.len() as int) =~= s);
        s.len() as int
    }
}

/// Trimming keeps a contiguous piece of the text that neither starts nor
/// ends with white space, and removes only white space around it.
pub proof fn law_trim_keeps_inner_piece(s: Seq<char>)
    ensures
        exists|i: int, j: int|
            {
                &&& 0 <= i <= j <= s.len()
                &&& trim_spec(s) == s.subrange(i, j)
                &&& forall|k: int| 0 <= k < i ==> is_white_space(#[trigger] s[k])
                &&& forall|k: int| j <= k < s.len() ==> is_white_space(#[trigger] s[k])
            },
        trim_spec(s).len() > 0 ==> !is_white_space(trim_spec(s)[0]) && !is_white_space(
            trim_spec(s).last(),
        ),
{
    let a = lemma_trim_front_piece(s);
    let u = trim_front(s);
    let b = lemma_trim_back_piece(u);
    let t = trim_spec(s);
    assert(t =~= s.subrange(a, a + b));
    assert forall|k: int| a + b <= k < s.len() implies is_white_space(#[trigger] s[k]) by {
        assert(s[k] == u[k - a]);
    }
    if t.len() > 0 {
        assert(t[0] == s[a]);
        assert(t.last() == u[b - 1]);
    }
}

/// Trimming twice is trimming once.
pub proof fn law_trim_idempotent(s: Seq<char>)
    ensures
        trim_spec(trim_spec(s)) == trim_spec(s),
{
    law_trim_keeps_inner_piece(s);
    let t = trim_spec(s);
    assert(trim_front(t) == t);
    assert(trim_back(t) == t);
}

/// The pieces of `parts` with `sep` between each two neighbours.
pub open spec fn join_spec(parts: Seq<Seq<char>>, sep: Seq<char>) -> Seq<char>
    decreases parts.len(),
{
    if parts.len() == 0 {
        Seq::empty()
    } else if parts.len() == 1 {
        parts[0]
    } else {
        join_spec(parts.drop_last(), sep) + sep + parts.last()
    }
}

proof fn lemma_trim_front_skip(s: Seq<char>, i: int)
    requires
        0 <= i <= s.len(),
        forall|j: int| 0 <= j < i ==> is_white_space(#[trigger] s[j]),
    ensures
        trim_front(s) == trim_front(s.subrange(i, s.len() as int)),
    decreases i,
{
    if i > 0 {
        assert(s.drop_first() =~= s.subrange(1, s.len() as int));
        let t = s.drop_first();
        assert forall|j: int| 0 <= j < i - 1 implies is_white_space(#[trigger] t[j]) by {
            assert(t[j] == s[j + 1]);
        }
        lemma_trim_front_skip(t, i - 1);
        assert(t.subrange(i - 1, t.len() as int) =~= s.subrange(i, s.len() as int));
    } else {
        assert(s.subrange(0, s.len() as int) =~= s);
    }
}

proof fn lemma_trim_back_skip(s: Seq<char>, e: int)
    requires
        0 <= e <= s.len(),
        forall|j: int| e <= j < s.len() ==> is_white_space(#[trigger] s[j]),
    ensures
        trim_back(s) == trim_back(s.subrange(0, e)),
    decreases s.len() - e,
{
    if e < s.len() {
        let t = s.drop_last();
        assert forall|j: int| e <= j < t.len() implies is_white_space(#[trigger] t[j]) by {
            assert(t[j] == s[j]);
        }
        lemma_trim_back_skip(t, e);
        assert(t.subrange(0, e) =~= s.subrange(0, e));
    } else {
        assert(s.subrange(0, e) =~= s);
    }
}

/// `s` with its leading and trailing white space removed, as `str::trim`
/// documents it.
pub fn trim(s: &str) -> (r: String)
    ensures
        r@ == trim_spec(s@),
{
    let n = s.unicode_len();
    let mut start: usize = 0;
    while start < n && char_is_whitespace(s.get_char(start))
        invariant
            n == s@.len(),
            start <= n,
            forall|j: int| 0 <= j < start ==> is_white_space(#[trigger] s@[j]),
        decreases n - start,
    {
        start = start + 1;
    }
    let mut end: usize = n;
    while end > start && char_is_whitespace(s.get_char(end - 1))
        invariant
            n == s@.len(),
            start <= end <= n,
            forall|j: int| end <= j < n ==> is_white_space(#[trigger] s@[j]),
        decreases end,
    {
        end = end - 1;
    }
    proof {
        let rest = s@.subrange(start as int, n as int);
        lemma_trim_front_skip(s@, start as int);
        if start < n {
            assert(rest[0] == s@[start as int]);
            assert(!is_white_space(rest[0]));
        }
        assert(trim_front(s@) == rest);
        assert forall|j: int| end - start <= j < rest.len() implies is_white_space(#[trigger] rest[j]) by {
            assert(rest[j] == s@[start + j]);
        }
        lemma_trim_back_skip(rest, end - start);
        let kept = rest.subrange(0, end - start);
        assert(kept =~= s@.subrange(start as int, end as int));
        if end > start {
            assert(kept.last() == s@[end - 1]);
        }
        assert(trim_back(kept) == kept);
    }
    let piece = s.substring_char(start, end);
    String::from_str(piece)
}

/// The total number of characters of the pieces.
pub open spec fn total_len(parts: Seq<Seq<char>>) -> int
    decreases parts.len(),
{
    if parts.len() == 0 {
        0
    } else {
        total_len(parts.drop_last()) + parts.last().len()
    }
}

/// Where piece `i` starts when the pieces are written one after another
/// with one separator character between neighbours.
pub open spec fn piece_start(parts: Seq<Seq<char>>, i: int) -> int {
    total_len(parts.take(i)) + i
}

/// The pieces before `i` and piece `i` together are the pieces before `i + 1`,
/// and the pieces before any point are at most all of them.
proof fn lemma_total_len_take(parts: Seq<Seq<char>>, i: int)
    requires
        0 <= i <= parts.len(),
    ensures
        i < parts.len() ==> total_len(parts.take(i + 1)) == total_len(parts.take(i)) + parts[i].len(),
        0 <= total_len(parts.take(i)) <= total_len(parts),
    decreases parts.len(),
{
    if i < parts.len() {
        assert(parts.take(i + 1).drop_last() =~= parts.take(i));
    }
    if parts.len() > 0 {
        if i == parts.len() {
            assert(parts.take(i) =~= parts);
            lemma_total_len_take(parts.drop_last(), i - 1);
            assert(parts.drop_last().take(i - 1) =~= parts.drop_last());
        } else {
            lemma_total_len_take(parts.drop_last(), i);
            assert(parts.drop_last().take(i) =~= parts.take(i));
        }
    } else {
        assert(parts.take(i) =~= Seq::<Seq<char>>::empty());
    }
}

/// The joined text is as long as the pieces plus one separator per gap.
proof fn lemma_join_len(parts: Seq<Seq<char>>, c: char)
    requires
        parts.len() > 0,
    ensures
        join_spec(parts, seq![c]).len() == total_len(parts) + parts.len() - 1,
    decreases parts.len(),
{
    if parts.len() == 1 {
        assert(parts.drop_last() =~= Seq::<Seq<char>>::empty());
        assert(total_len(parts) == total_len(parts.drop_last()) + parts.last().len());
        assert(join_spec(parts, seq![c]) == parts[0]);
    } else {
        lemma_join_len(parts.drop_last(), c);
        assert(join_spec(parts, seq![c]) == join_spec(parts.drop_last(), seq![c]) + seq![c]
            + parts.last());
    }
}

/// Piece `i` stands at its place in the joined text.
proof fn lemma_join_piece(parts: Seq<Seq<char>>, c: char, i: int)
    requires
        0 <= i < parts.len(),
    ensures
        join_spec(parts, seq![c]).subrange(piece_start(parts, i), piece_start(parts, i) + parts[i].len())
            == parts[i],
    decreases parts.len(),
{
    let n = parts.len() as int;
    let t = join_spec(parts, seq![c]);
    if n == 1 {
        assert(parts.take(0) =~= Seq::<Seq<char>>::empty());
        assert(t.subrange(0, parts[0].len() as int) =~= parts[0]);
    } else {
        let front = parts.drop_last();
        let jf = join_spec(front, seq![c]);
        lemma_join_len(front, c);
        assert(t == jf + seq![c] + parts.last());
        if i < n - 1 {
            lemma_join_piece(front, c, i);
            assert(parts.take(i) =~= front.take(i));
            lemma_total_len_take(front, i);
            lemma_total_len_take(front, i + 1);
            assert(t.subrange(piece_start(parts, i), piece_start(parts, i) + parts[i].len())
                =~= jf.subrange(piece_start(front, i), piece_start(front, i) + front[i].len()));
        } else {
            assert(parts.take(n - 1) =~= front);
            assert(t.subrange(piece_start(parts, i), piece_start(parts, i) + parts[i].len())
                =~= parts.last());
        }
    }
}

/// The separator follows piece `i` in the joined text, for every piece but
/// the last.
proof fn lemma_join_separator(parts: Seq<Seq<char>>, c: char, i: int)
    requires
        0 <= i < parts.len() - 1,
    ensures
        join_spec(parts, seq![c])[piece_start(parts, i) + parts[i].len()] == c,
    decreases parts.len(),
{
    let n = parts.len() as int;
    let t = join_spec(parts, seq![c]);
    let front = parts.drop_last();
    let jf = join_spec(front, seq![c]);
    lemma_join_len(front, c);
    assert(t == jf + seq![c] + parts.last());
    assert(parts.take(i) =~= front.take(i));
    if i < n - 2 {
        lemma_join_separator(front, c, i);
        lemma_total_len_take(front, i);
        lemma_total_len_take(front, i + 1);
        let k = piece_start(front, i) + front[i].len();
        assert(t[k] == jf[k]);
    } else {
        assert(front.take(i) =~= front.drop_last());
        assert(piece_start(parts, i) + parts[i].len() == jf.len());
    }
}

/// Joining pieces with a one-character separator writes every piece, in
/// order, with exactly one separator between neighbours and nothing else:
/// the length is the pieces' total plus one per gap, each piece stands at
/// its place, and the separator follows every piece but the last.
pub proof fn law_join_writes_every_piece(parts: Seq<Seq<char>>, c: char)
    requires
        parts.len() > 0,
    ensures
        join_spec(parts, seq![c]).len() == total_len(parts) + parts.len() - 1,
        forall|i: int|
            #![trigger parts[i]]
            0 <= i < parts.len() ==> join_spec(parts, seq![c]).subrange(
                piece_start(parts, i),
                piece_start(parts, i) + parts[i].len(),
            ) == parts[i],
        forall|i: int|
            #![trigger parts[i]]
            0 <= i < parts.len() - 1 ==> join_spec(parts, seq![c])[piece_start(parts, i)
                + parts[i].len()] == c,
{
    lemma_join_len(parts, c);
    assert forall|i: int|
        #![trigger parts[i]]
        0 <= i < parts.len() implies join_spec(parts, seq![c]).subrange(
            piece_start(parts, i),
            piece_start(parts, i) + parts[i].len(),
        ) == parts[i] by {
        lemma_join_piece(parts, c, i);
    }
    assert forall|i: int|
        #![trigger parts[i]]
        0 <= i < parts.len() - 1 implies join_spec(parts, seq![c])[piece_start(parts, i)
            + parts[i].len()] == c by {
        lemma_join_separator(parts, c, i);
    }
}

/// The pieces of `parts` joined with `sep` between each two neighbours.
pub fn join(parts: &Vec<String>, sep: &str) -> (r: String)
    ensures
        r@ == join_spec(parts@.map_values(|p: String| p@), sep@),
{
    let ghost views = parts@.map_values(|p: String| p@);
    let mut r = String::new();
    let mut i: usize = 0;
    while i < parts.len()
        invariant
            i <= parts.len(),
            views == parts@.map_values(|p: String| p@),
            r@ == join_spec(views.take(i as int), sep@),
        decreases parts.len() - i,
    {
        if i > 0 {
            r.append(sep);
        }
        r.append(parts[i].as_str());
        proof {
            let next = views.take(i + 1);
            assert(next.drop_last() =~= views.take(i as int));
            assert(next.last() == parts@[i as int]@);
            if i == 0 {
                assert(r@ =~= join_spec(next, sep@));
            }
        }
        i = i + 1;
    }
    assert(views.take(parts.len() as int) =~= views);
    r
}

} // verus!
