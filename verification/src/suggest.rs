//! "Did you mean" suggestions: edit distance and the nearest known command.
use vstd::prelude::*;

use crate::text::chars_of;

verus! {

/// The smaller of two numbers.
pub open spec fn least(a: nat, b: nat) -> nat {
    if a <= b {
        a
    } else {
        b
    }
}

/// The number of edits between two texts, by their last characters: the last of `a` is
/// removed, the last of `b` is inserted, or the one is left or replaced by the other,
/// whichever comes to the least. See [`distance_is_reached`] and
/// [`distance_is_least`].
pub open spec fn edit_distance(a: Seq<char>, b: Seq<char>) -> nat
    decreases a.len() + b.len(),
{
    if a.len() == 0 {
        b.len()
    } else if b.len() == 0 {
        a.len()
    } else {
        least(
            least(edit_distance(a.drop_last(), b) + 1, edit_distance(a, b.drop_last()) + 1),
            edit_distance(a.drop_last(), b.drop_last()) + (if a.last() != b.last() {
                1nat
            } else {
                0nat
            }),
        )
    }
}

// ── Edits ────────────────────────────────────────────────────────────────────

/// A change of one character of a text.
pub enum Edit {
    /// Puts a character in at an index.
    Insert(int, char),
    /// Takes the character at an index out.
    Remove(int),
    /// Puts another character in place of the one at an index.
    Replace(int, char),
}

impl Edit {
    /// Whether the text has the place that is edited.
    pub open spec fn fits(self, s: Seq<char>) -> bool {
        match self {
            Edit::Insert(i, _) => 0 <= i <= s.len(),
            Edit::Remove(i) => 0 <= i < s.len(),
            Edit::Replace(i, _) => 0 <= i < s.len(),
        }
    }

    /// The text after the edit.
    pub open spec fn on(self, s: Seq<char>) -> Seq<char> {
        match self {
            Edit::Insert(i, c) => s.insert(i, c),
            Edit::Remove(i) => s.remove(i),
            Edit::Replace(i, c) => s.update(i, c),
        }
    }
}

/// The text after edits, one after the other.
pub open spec fn edited(s: Seq<char>, script: Seq<Edit>) -> Seq<char>
    decreases script.len(),
{
    if script.len() == 0 {
        s
    } else {
        script.last().on(edited(s, script.drop_last()))
    }
}

/// Whether each edit fits the text that those before it leave.
pub open spec fn edits_fit(s: Seq<char>, script: Seq<Edit>) -> bool
    decreases script.len(),
{
    script.len() == 0 || (edits_fit(s, script.drop_last()) && script.last().fits(
        edited(s, script.drop_last()),
    ))
}

/// Whether the edits turn `a` into `b`.
pub open spec fn turns(a: Seq<char>, b: Seq<char>, script: Seq<Edit>) -> bool {
    edits_fit(a, script) && edited(a, script) == b
}

/// Edits that follow edits go on from what those leave.
proof fn lemma_edits_follow(a: Seq<char>, b: Seq<char>, c: Seq<char>, x: Seq<Edit>, y: Seq<Edit>)
    requires
        turns(a, b, x),
        turns(b, c, y),
    ensures
        turns(a, c, x + y),
    decreases y.len(),
{
    if y.len() == 0 {
        assert(x + y == x);
    } else {
        let before = edited(b, y.drop_last());
        lemma_edits_follow(a, b, before, x, y.drop_last());
        assert((x + y).drop_last() == x + y.drop_last());
        assert((x + y).last() == y.last());
    }
}

proof fn lemma_single_edit(a: Seq<char>, b: Seq<char>, e: Edit) -> (script: Seq<Edit>)
    requires
        e.fits(a),
        e.on(a) == b,
    ensures
        script.len() == 1,
        turns(a, b, script),
{
    let script = seq![e];
    assert(script.drop_last() == Seq::<Edit>::empty());
    assert(edited(a, script.drop_last()) == a);
    assert(edits_fit(a, script.drop_last()));
    script
}

/// Edits leave a character behind the text as it is.
proof fn lemma_edits_before(a: Seq<char>, b: Seq<char>, script: Seq<Edit>, c: char)
    requires
        turns(a, b, script),
    ensures
        turns(a.push(c), b.push(c), script),
    decreases script.len(),
{
    if script.len() > 0 {
        let mid = edited(a, script.drop_last());
        let e = script.last();
        lemma_edits_before(a, mid, script.drop_last(), c);
        assert(e.on(mid.push(c)) =~= e.on(mid).push(c));
    }
}

proof fn lemma_script(a: Seq<char>, b: Seq<char>) -> (script: Seq<Edit>)
    ensures
        turns(a, b, script),
        script.len() == edit_distance(a, b),
    decreases a.len() + b.len(),
{
    let (a1, b1) = (a.drop_last(), b.drop_last());
    let (la, lb) = (a.len() - 1, b.len() - 1);
    if a.len() == 0 && b.len() == 0 {
        assert(a == b);
        Seq::empty()
    } else if b.len() > 0 && (a.len() == 0 || edit_distance(a, b) == edit_distance(a, b1) + 1) {
        let before = lemma_script(a, b1);
        let e = Edit::Insert(lb, b.last());
        assert(e.on(b1) =~= b);
        let one = lemma_single_edit(b1, b, e);
        lemma_edits_follow(a, b1, b, before, one);
        before + one
    } else if b.len() == 0 || edit_distance(a, b) == edit_distance(a1, b) + 1 {
        let after = lemma_script(a1, b);
        let e = Edit::Remove(la);
        assert(e.on(a) =~= a1);
        let one = lemma_single_edit(a, a1, e);
        lemma_edits_follow(a, a1, b, one, after);
        one + after
    } else {
        let before = lemma_script(a1, b1);
        lemma_edits_before(a1, b1, before, a.last());
        assert(a == a1.push(a.last()));
        let mid = b1.push(a.last());
        if a.last() == b.last() {
            assert(mid =~= b);
            before
        } else {
            let e = Edit::Replace(lb, b.last());
            assert(e.on(mid) =~= b);
            let one = lemma_single_edit(mid, b, e);
            lemma_edits_follow(a, mid, b, before, one);
            before + one
        }
    }
}

/// As many edits as the distance turn one text into the other.
pub proof fn distance_is_reached(a: Seq<char>, b: Seq<char>)
    ensures
        exists|script: Seq<Edit>| #[trigger]
            turns(a, b, script) && script.len() == edit_distance(a, b),
{
    let script = lemma_script(a, b);
}

/// A further character costs one edit at most.
proof fn lemma_longer(a: Seq<char>, b: Seq<char>)
    ensures
        a.len() > 0 ==> edit_distance(a, b) <= edit_distance(a.drop_last(), b) + 1,
        b.len() > 0 ==> edit_distance(a, b) <= edit_distance(a, b.drop_last()) + 1,
{
}

/// One edit takes a text one step away at most.
proof fn lemma_one_step(a: Seq<char>, c: Seq<char>, e: Edit)
    requires
        e.fits(c),
    ensures
        edit_distance(a, e.on(c)) <= edit_distance(a, c) + 1,
    decreases a.len() + c.len(),
{
    let d = e.on(c);
    lemma_longer(a, d);
    if a.len() == 0 {
    } else if c.len() == 0 {
        assert(d.drop_last() =~= c);
    } else {
        let (a1, c1) = (a.drop_last(), c.drop_last());
        lemma_longer(a, c1);
        lemma_one_step(a1, c, e);
        if e.fits(c1) {
            lemma_one_step(a, c1, e);
            lemma_one_step(a1, c1, e);
            assert(d =~= e.on(c1).push(c.last()));
            assert(d.drop_last() =~= e.on(c1));
        } else {
            match e {
                Edit::Insert(_, _) => {
                    assert(d.drop_last() =~= c);
                },
                Edit::Remove(_) => {
                    assert(d =~= c1);
                },
                Edit::Replace(_, _) => {
                    assert(d.drop_last() =~= c1);
                },
            }
        }
    }
}

/// No fewer edits than the distance turn one text into the other.
pub proof fn distance_is_least(a: Seq<char>, b: Seq<char>, script: Seq<Edit>)
    requires
        turns(a, b, script),
    ensures
        edit_distance(a, b) <= script.len(),
    decreases script.len(),
{
    if script.len() == 0 {
        distance_zero_is_equality(a, b);
    } else {
        let mid = edited(a, script.drop_last());
        distance_is_least(a, mid, script.drop_last());
        lemma_one_step(a, mid, script.last());
    }
}

/// A detour is not shorter: the distance over a third text is no less.
pub proof fn distance_is_no_longer_than_a_detour(a: Seq<char>, b: Seq<char>, c: Seq<char>)
    ensures
        edit_distance(a, b) <= edit_distance(a, c) + edit_distance(c, b),
{
    let x = lemma_script(a, c);
    let y = lemma_script(c, b);
    lemma_edits_follow(a, c, b, x, y);
    distance_is_least(a, b, x + y);
}

/// The distance is at most the longer length.
pub proof fn distance_is_bounded(a: Seq<char>, b: Seq<char>)
    ensures
        edit_distance(a, b) <= (if a.len() <= b.len() { b.len() } else { a.len() }),
    decreases a.len() + b.len(),
{
    if a.len() > 0 && b.len() > 0 {
        distance_is_bounded(a.drop_last(), b.drop_last());
    }
}

/// The distance is zero between equal texts, and only there.
pub proof fn distance_zero_is_equality(a: Seq<char>, b: Seq<char>)
    ensures
        edit_distance(a, b) == 0 <==> a == b,
    decreases a.len() + b.len(),
{
    if a.len() > 0 && b.len() > 0 {
        distance_zero_is_equality(a.drop_last(), b.drop_last());
        assert(a == a.drop_last().push(a.last()));
        assert(b == b.drop_last().push(b.last()));
    } else if a.len() == 0 && b.len() == 0 {
        assert(a =~= b);
    }
}

/// The distance is the same in both directions.
pub proof fn distance_is_symmetric(a: Seq<char>, b: Seq<char>)
    ensures
        edit_distance(a, b) == edit_distance(b, a),
    decreases a.len() + b.len(),
{
    if a.len() > 0 && b.len() > 0 {
        distance_is_symmetric(a.drop_last(), b);
        distance_is_symmetric(a, b.drop_last());
        distance_is_symmetric(a.drop_last(), b.drop_last());
    }
}

/// The edit distance of `a` and `b`, one row of the table at a time. The column for
/// no characters of `b` is not stored.
pub fn levenshtein(a: &str, b: &str) -> (r: usize)
    ensures
        r == edit_distance(a@, b@),
{
    let a = chars_of(a);
    let b = chars_of(b);
    let mut prev: Vec<usize> = Vec::new();
    let mut k: usize = 0;
    while k < b.len()
        invariant
            k <= b.len(),
            prev.len() == k,
            forall|j: int|
                0 <= j < k ==> #[trigger] prev@[j] == edit_distance(a@.take(0), b@.take(j + 1)),
        decreases b.len() - k,
    {
        k += 1;
        prev.push(k);
    }
    let mut i: usize = 0;
    while i < a.len()
        invariant
            i <= a.len(),
            prev.len() == b.len(),
            forall|j: int|
                0 <= j < b.len() ==> #[trigger] prev@[j] == edit_distance(
                    a@.take(i as int),
                    b@.take(j + 1),
                ),
        decreases a.len() - i,
    {
        let mut cur: Vec<usize> = Vec::new();
        let ghost row = a@.take(i + 1);
        assert(row.drop_last() == a@.take(i as int));
        let mut j: usize = 0;
        while j < b.len()
            invariant
                i < a.len(),
                j <= b.len(),
                prev.len() == b.len(),
                cur.len() == j,
                row == a@.take(i + 1),
                row.drop_last() == a@.take(i as int),
                forall|m: int|
                    0 <= m < b.len() ==> #[trigger] prev@[m] == edit_distance(
                        a@.take(i as int),
                        b@.take(m + 1),
                    ),
                forall|m: int|
                    0 <= m < j ==> #[trigger] cur@[m] == edit_distance(row, b@.take(m + 1)),
            decreases b.len() - j,
        {
            let left: usize = if j == 0 {
                i + 1
            } else {
                cur[j - 1]
            };
            let corner: usize = if j == 0 {
                i
            } else {
                prev[j - 1]
            };
            proof {
                assert(b@.take(j + 1).drop_last() == b@.take(j as int));
                assert(left == edit_distance(row, b@.take(j as int)));
                assert(corner == edit_distance(a@.take(i as int), b@.take(j as int)));
                distance_is_bounded(row, b@.take(j + 1));
            }
            let cost: usize = if a[i] != b[j] {
                1
            } else {
                0
            };
            let up: usize = prev[j].saturating_add(1);
            let left: usize = left.saturating_add(1);
            let diagonal: usize = corner.saturating_add(cost);
            let near: usize = if up <= left {
                up
            } else {
                left
            };
            cur.push(
                if near <= diagonal {
                    near
                } else {
                    diagonal
                },
            );
            j += 1;
        }
        prev = cur;
        i += 1;
    }
    proof {
        assert(a@.take(a@.len() as int) == a@);
        assert(b@.take(b@.len() as int) == b@);
    }
    if b.len() == 0 {
        a.len()
    } else {
        prev[b.len() - 1]
    }
}

/// The commands that are suggested, in order.
pub open spec fn commands() -> Seq<Seq<char>> {
    seq![
        "pipe"@,
        "serve"@,
        "collect"@,
        "fan"@,
        "doctor"@,
        "man"@,
        "completion"@,
        "help"@,
        "version"@,
    ]
}

/// The `i`th command.
fn command_name(i: usize) -> (r: &'static str)
    requires
        i < 9,
    ensures
        r@ == commands()[i as int],
{
    if i == 0 {
        "pipe"
    } else if i == 1 {
        "serve"
    } else if i == 2 {
        "collect"
    } else if i == 3 {
        "fan"
    } else if i == 4 {
        "doctor"
    } else if i == 5 {
        "man"
    } else if i == 6 {
        "completion"
    } else if i == 7 {
        "help"
    } else {
        "version"
    }
}

/// Whether the `k`th command is the one to suggest for `input`: within distance
/// two, no other is nearer, and none before it is as near.
pub open spec fn is_suggestion(input: Seq<char>, k: int) -> bool {
    &&& 0 <= k < commands().len()
    &&& edit_distance(input, commands()[k]) <= 2
    &&& forall|j: int|
        #![trigger commands()[j]]
        0 <= j < commands().len() ==> edit_distance(input, commands()[k]) <= edit_distance(
            input,
            commands()[j],
        )
    &&& forall|j: int|
        #![trigger commands()[j]]
        0 <= j < k ==> edit_distance(input, commands()[k]) < edit_distance(input, commands()[j])
}

/// The nearest known command within edit distance two; the earliest of several.
pub fn suggest_command(input: &str) -> (r: Option<&'static str>)
    ensures
        match r {
            Some(s) => exists|k: int| #[trigger] is_suggestion(input@, k) && s@ == commands()[k],
            None => forall|j: int|
                #![trigger commands()[j]]
                0 <= j < commands().len() ==> edit_distance(input@, commands()[j]) > 2,
        },
{
    let mut best: Option<(usize, usize)> = None;
    let mut i: usize = 0;
    while i < 9
        invariant
            i <= 9,
            match best {
                Some((k, d)) => k < i && d <= 2 && d == edit_distance(input@, commands()[k as int])
                    && (forall|j: int|
                    #![trigger commands()[j]]
                    0 <= j < i ==> d <= edit_distance(input@, commands()[j])) && (forall|j: int|
                    #![trigger commands()[j]]
                    0 <= j < k ==> d < edit_distance(input@, commands()[j])),
                None => forall|j: int|
                    #![trigger commands()[j]]
                    0 <= j < i ==> edit_distance(input@, commands()[j]) > 2,
            },
        decreases 9 - i,
    {
        let d: usize = levenshtein(input, command_name(i));
        if d <= 2 {
            match best {
                Some((k, near)) => {
                    if d < near {
                        best = Some((i, d));
                    }
                },
                None => {
                    best = Some((i, d));
                },
            }
        }
        i += 1;
    }
    match best {
        Some((k, _)) => {
            assert(is_suggestion(input@, k as int));
            Some(command_name(k))
        },
        None => None,
    }
}

/// A known command is its own suggestion.
pub proof fn known_commands_suggest_themselves(k: int)
    requires
        0 <= k < commands().len(),
    ensures
        is_suggestion(commands()[k], k),
        forall|j: int| is_suggestion(commands()[k], j) ==> j == k,
{
    lemma_commands_distinct();
    distance_zero_is_equality(commands()[k], commands()[k]);
    assert forall|j: int|
        #![trigger commands()[j]]
        0 <= j < commands().len() && j != k implies edit_distance(commands()[k], commands()[j]) > 0 by {
        distance_zero_is_equality(commands()[k], commands()[j]);
    }
    assert forall|j: int| is_suggestion(commands()[k], j) implies j == k by {
        let cj = commands()[j];
        let ck = commands()[k];
    }
}

proof fn lemma_commands_distinct()
    ensures
        forall|i: int, j: int|
            #![trigger commands()[i], commands()[j]]
            0 <= i < j < 9 ==> commands()[i] != commands()[j],
{
    reveal_strlit("pipe");
    reveal_strlit("serve");
    reveal_strlit("collect");
    reveal_strlit("fan");
    reveal_strlit("doctor");
    reveal_strlit("man");
    reveal_strlit("completion");
    reveal_strlit("help");
    reveal_strlit("version");
    assert("pipe"@[0] != "help"@[0]);
    assert("fan"@[0] != "man"@[0]);
    assert("collect"@[0] != "version"@[0]);
    let c = commands();
    assert(c[0] == "pipe"@ && c[1] == "serve"@ && c[2] == "collect"@ && c[3] == "fan"@ && c[4]
        == "doctor"@ && c[5] == "man"@ && c[6] == "completion"@ && c[7] == "help"@ && c[8]
        == "version"@);
    assert(c[0].len() == 4 && c[1].len() == 5 && c[2].len() == 7 && c[3].len() == 3 && c[4].len()
        == 6 && c[5].len() == 3 && c[6].len() == 10 && c[7].len() == 4 && c[8].len() == 7);
    assert(c[0] != c[7] && c[3] != c[5] && c[2] != c[8]);
    assert forall|i: int, j: int| #![trigger c[i], c[j]] 0 <= i < j < 9 implies c[i] != c[j] by {
        assert(i == 0 || i == 1 || i == 2 || i == 3 || i == 4 || i == 5 || i == 6 || i == 7);
        assert(j == 1 || j == 2 || j == 3 || j == 4 || j == 5 || j == 6 || j == 7 || j == 8);
    }
}

/// A command is suggested if and only if one can be reached by two edits; the one that is
/// suggested can, and no command can be reached by fewer.
pub proof fn suggestions_are_two_edits_away(input: Seq<char>, k: int, j: int, script: Seq<Edit>)
    requires
        0 <= j < 9,
        turns(input, commands()[j], script),
        is_suggestion(input, k),
    ensures
        exists|s: Seq<Edit>| #[trigger]
            turns(input, commands()[k], s) && s.len() <= 2 && s.len() <= script.len(),
        j < k ==> exists|s: Seq<Edit>| #[trigger]
            turns(input, commands()[k], s) && s.len() < script.len(),
{
    distance_is_least(input, commands()[j], script);
    distance_is_reached(input, commands()[k]);
    let s = choose|s: Seq<Edit>| #[trigger]
        turns(input, commands()[k], s) && s.len() == edit_distance(input, commands()[k]);
    assert(turns(input, commands()[k], s) && s.len() <= script.len());
    assert(j < k ==> s.len() < script.len());
}

/// What can be turned into a command by two edits has a suggestion.
pub proof fn near_commands_are_suggested(input: Seq<char>, j: int, script: Seq<Edit>)
    requires
        0 <= j < 9,
        turns(input, commands()[j], script),
        script.len() <= 2,
    ensures
        exists|k: int| is_suggestion(input, k),
{
    distance_is_least(input, commands()[j], script);
    let k = lemma_nearest(input, 9);
    assert(commands()[j] == commands()[j]);
    assert(is_suggestion(input, k));
}

/// The first of the nearest among the first `n` commands.
proof fn lemma_nearest(input: Seq<char>, n: int) -> (k: int)
    requires
        0 < n <= 9,
    ensures
        0 <= k < n,
        forall|j: int|
            #![trigger commands()[j]]
            0 <= j < n ==> edit_distance(input, commands()[k]) <= edit_distance(input, commands()[j]),
        forall|j: int|
            #![trigger commands()[j]]
            0 <= j < k ==> edit_distance(input, commands()[k]) < edit_distance(input, commands()[j]),
    decreases n,
{
    if n == 1 {
        0
    } else {
        let k = lemma_nearest(input, n - 1);
        if edit_distance(input, commands()[n - 1]) < edit_distance(input, commands()[k]) {
            n - 1
        } else {
            k
        }
    }
}

/// The commands that are suggested are nine, each by its name.
pub proof fn suggested_commands(name: Seq<char>)
    ensures
        commands().contains(name) <==> name == "pipe"@ || name == "serve"@ || name == "collect"@ || name
            == "fan"@ || name == "doctor"@ || name == "man"@ || name == "completion"@ || name == "help"@
            || name == "version"@,
{
    let c = commands();
    assert(c[0] == "pipe"@ && c[1] == "serve"@ && c[2] == "collect"@ && c[3] == "fan"@ && c[4]
        == "doctor"@ && c[5] == "man"@ && c[6] == "completion"@ && c[7] == "help"@ && c[8]
        == "version"@);
}

} // verus!
