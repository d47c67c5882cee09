use vstd::prelude::*;

verus! {

/// How one letter of a guess relates to the secret word.
#[derive(Clone, Copy, Debug, PartialEq, Eq, Structural)]
pub enum Occurrence {
    Wrong,
    Present,
    Correct,
}

/// One scored letter of a guess.
#[derive(Clone, Copy, Debug)]
pub struct Guess {
    pub letter: char,
    pub occurrence: Occurrence,
}

impl Guess {
    /// A scored letter.
    pub fn new(letter: char, occurrence: Occurrence) -> (r: Guess)
        ensures
            r == (Guess { letter, occurrence }),
    {
        Guess { letter, occurrence }
    }
}

/// Number of positions `j < n` where the secret holds `c` and that position
/// is not already matched exactly by the guess: the occurrences of `c` still
/// available once exact matches are taken out.
pub open spec fn unmatched(secret: Seq<char>, guess: Seq<char>, c: char, n: int) -> nat
    decreases n,
{
    if n <= 0 {
        0
    } else {
        unmatched(secret, guess, c, n - 1) + if secret[n - 1] == c && guess[n - 1] != secret[n - 1] {
            1nat
        } else {
            0nat
        }
    }
}

/// Number of positions `k < i` where the guess holds `c` without matching the
/// secret there: the earlier positions that compete for an available `c`.
pub open spec fn claims_before(secret: Seq<char>, guess: Seq<char>, c: char, i: int) -> nat
    decreases i,
{
    if i <= 0 {
        0
    } else {
        claims_before(secret, guess, c, i - 1) + if guess[i - 1] == c && guess[i - 1] != secret[i - 1] {
            1nat
        } else {
            0nat
        }
    }
}

/// The classification of position `i`: exact matches are correct; any other
/// position is present while an unclaimed occurrence of its letter remains in
/// the secret, leftmost positions claiming first; the rest are wrong.
pub open spec fn classify(secret: Seq<char>, guess: Seq<char>, i: int) -> Occurrence {
    if guess[i] == secret[i] {
        Occurrence::Correct
    } else if claims_before(secret, guess, guess[i], i) < unmatched(
        secret,
        guess,
        guess[i],
        secret.len() as int,
    ) {
        Occurrence::Present
    } else {
        Occurrence::Wrong
    }
}

/// A row of scored letters is the score of `guess` against `secret`.
pub open spec fn is_score(row: Seq<Guess>, secret: Seq<char>, guess: Seq<char>) -> bool {
    &&& row.len() == guess.len()
    &&& forall|i: int|
        0 <= i < row.len() ==> #[trigger] row[i] == (Guess {
            letter: guess[i],
            occurrence: classify(secret, guess, i),
        })
}

/// Number of slots `j < n` of the pool that still offer the letter `c`.
pub open spec fn available(pool: Seq<Option<char>>, c: char, n: int) -> nat
    decreases n,
{
    if n <= 0 {
        0
    } else {
        available(pool, c, n - 1) + if pool[n - 1] == Some(c) {
            1nat
        } else {
            0nat
        }
    }
}

proof fn lemma_pool_counts(pool: Seq<Option<char>>, secret: Seq<char>, guess: Seq<char>, c: char, n: int)
    requires
        0 <= n <= pool.len(),
        pool.len() <= secret.len(),
        pool.len() <= guess.len(),
        forall|j: int|
            0 <= j < pool.len() ==> #[trigger] pool[j] == (if guess[j] == secret[j] {
                None
            } else {
                Some(secret[j])
            }),
    ensures
        available(pool, c, n) == unmatched(secret, guess, c, n),
    decreases n,
{
    if n > 0 {
        lemma_pool_counts(pool, secret, guess, c, n - 1);
    }
}

proof fn lemma_take_slot(pool: Seq<Option<char>>, p: int, g: char, c: char, n: int)
    requires
        0 <= p < pool.len(),
        pool[p] == Some(g),
        0 <= n <= pool.len(),
    ensures
        available(pool.update(p, None), c, n) + (if c == g && p < n {
            1nat
        } else {
            0nat
        }) == available(pool, c, n),
    decreases n,
{
    if n > 0 {
        lemma_take_slot(pool, p, g, c, n - 1);
    }
}

proof fn lemma_no_slot(pool: Seq<Option<char>>, c: char, n: int)
    requires
        0 <= n <= pool.len(),
        forall|q: int| 0 <= q < pool.len() ==> #[trigger] pool[q] != Some(c),
    ensures
        available(pool, c, n) == 0,
    decreases n,
{
    if n > 0 {
        lemma_no_slot(pool, c, n - 1);
    }
}

/// The first slot of the pool that offers `c`, if any.
fn find_slot(pool: &Vec<Option<char>>, c: char) -> (r: Option<usize>)
    ensures
        r matches Some(p) ==> p < pool@.len() && pool@[p as int] == Some(c),
        r is None ==> forall|q: int| 0 <= q < pool@.len() ==> #[trigger] pool@[q] != Some(c),
{
    let mut p: usize = 0;
    while p < pool.len()
        invariant
            p <= pool@.len(),
            forall|q: int| 0 <= q < p ==> #[trigger] pool@[q] != Some(c),
        decreases pool@.len() - p,
    {
        match pool[p] {
            Some(x) => {
                if x == c {
                    return Some(p);
                }
            },
            None => {},
        }
        p = p + 1;
    }
    None
}

/// Scores `guess` against `secret` in two passes: exact matches first, each
/// taking its letter out of the pool of the secret's letters; then, left to
/// right, every other position takes one remaining occurrence of its letter
/// if there is one.
pub fn score(secret: &Vec<char>, guess: &Vec<char>) -> (row: Vec<Guess>)
    requires
        secret@.len() == guess@.len(),
    ensures
        is_score(row@, secret@, guess@),
{
    let n: usize = guess.len();
    let mut pool: Vec<Option<char>> = Vec::new();
    let mut out: Vec<Guess> = Vec::new();
    let mut i: usize = 0;
    while i < n
        invariant
            n == guess@.len(),
            n == secret@.len(),
            i <= n,
            pool@.len() == i,
            out@.len() == i,
            forall|j: int|
                0 <= j < i ==> #[trigger] pool@[j] == (if guess@[j] == secret@[j] {
                    None
                } else {
                    Some(secret@[j])
                }),
            forall|j: int|
                0 <= j < i ==> #[trigger] out@[j] == (Guess {
                    letter: guess@[j],
                    occurrence: if guess@[j] == secret@[j] {
                        Occurrence::Correct
                    } else {
                        Occurrence::Wrong
                    },
                }),
        decreases n - i,
    {
        let g: char = guess[i];
        let s: char = secret[i];
        if g == s {
            pool.push(None);
            out.push(Guess::new(g, Occurrence::Correct));
        } else {
            pool.push(Some(s));
            out.push(Guess::new(g, Occurrence::Wrong));
        }
        i = i + 1;
    }
    proof {
        assert forall|c: char| #[trigger] available(pool@, c, n as int) == unmatched(secret@, guess@, c, n as int) by {
            lemma_pool_counts(pool@, secret@, guess@, c, n as int);
        }
    }
    let mut i: usize = 0;
    while i < n
        invariant
            n == guess@.len(),
            n == secret@.len(),
            i <= n,
            pool@.len() == n,
            out@.len() == n,
            forall|j: int|
                0 <= j < i ==> #[trigger] out@[j] == (Guess {
                    letter: guess@[j],
                    occurrence: classify(secret@, guess@, j),
                }),
            forall|j: int|
                i <= j < n ==> #[trigger] out@[j] == (Guess {
                    letter: guess@[j],
                    occurrence: if guess@[j] == secret@[j] {
                        Occurrence::Correct
                    } else {
                        Occurrence::Wrong
                    },
                }),
            forall|c: char| #[trigger]
                available(pool@, c, n as int) == if claims_before(secret@, guess@, c, i as int)
                    < unmatched(secret@, guess@, c, n as int) {
                    (unmatched(secret@, guess@, c, n as int) - claims_before(
                        secret@,
                        guess@,
                        c,
                        i as int,
                    )) as nat
                } else {
                    0nat
                },
        decreases n - i,
    {
        let g = guess[i];
        if g != secret[i] {
            match find_slot(&pool, g) {
                Some(p) => {
                    let ghost before = pool@;
                    pool.set(p, None);
                    out.set(i, Guess::new(g, Occurrence::Present));
                    proof {
                        assert forall|c: char| #[trigger]
                            available(pool@, c, n as int) + (if c == g { 1nat } else { 0nat })
                                == available(before, c, n as int) by {
                            lemma_take_slot(before, p as int, g, c, n as int);
                        }
                        lemma_take_slot(before, p as int, g, g, n as int);
                    }
                },
                None => {
                    proof {
                        lemma_no_slot(pool@, g, n as int);
                    }
                },
            }
        }
        i = i + 1;
    }
    out
}

/// Scoring a word against itself marks every position correct.
pub proof fn lemma_exact_match(word: Seq<char>)
    ensures
        forall|i: int| 0 <= i < word.len() ==> #[trigger] classify(word, word, i) == Occurrence::Correct,
{
}

proof fn lemma_absent_letter(secret: Seq<char>, guess: Seq<char>, c: char, n: int)
    requires
        0 <= n <= secret.len(),
        forall|j: int| 0 <= j < n ==> #[trigger] secret[j] != c,
    ensures
        unmatched(secret, guess, c, n) == 0,
    decreases n,
{
    if n > 0 {
        lemma_absent_letter(secret, guess, c, n - 1);
    }
}

/// When the guess and the secret have no letter in common, every position of
/// the guess is wrong.
pub proof fn lemma_disjoint_letters(secret: Seq<char>, guess: Seq<char>)
    requires
        secret.len() == guess.len(),
        forall|i: int, j: int|
            0 <= i < guess.len() && 0 <= j < secret.len() ==> #[trigger] guess[i] != #[trigger] secret[j],
    ensures
        forall|i: int| 0 <= i < guess.len() ==> #[trigger] classify(secret, guess, i) == Occurrence::Wrong,
{
    assert forall|i: int| 0 <= i < guess.len() implies #[trigger] classify(secret, guess, i)
        == Occurrence::Wrong by {
        assert(guess[i] != secret[i]);
        lemma_absent_letter(secret, guess, guess[i], secret.len() as int);
    }
}

} // verus!
