use vstd::prelude::*;
use crate::error::WordleError;
use crate::outside::{choose_word, colour_digit, lower_of, paint, painted, to_lowercase, trim, trimmed};
use crate::scoring::{is_score, lemma_exact_match, score, Guess, Occurrence};

verus! {

/// Where the words of a game come from.
#[derive(Clone, Debug)]
pub enum WordList {
    /// The list bundled with the program, handed to `Wordle::new`.
    BuiltIn,
    /// A list chosen by the caller.
    Custom(Vec<String>),
}

/// How a game is set up.
pub struct WordleSettings {
    pub word_length: usize,
    pub max_guesses: usize,
    pub word_list: WordList,
    /// Whether a guess must be a word of the list.
    pub strict: bool,
}

impl WordleSettings {
    /// Five letters, five guesses, the bundled list, any word accepted.
    pub fn default() -> (r: WordleSettings)
        ensures
            r.word_length == 5,
            r.max_guesses == 5,
            r.word_list is BuiltIn,
            !r.strict,
    {
        WordleSettings { word_length: 5, max_guesses: 5, word_list: WordList::BuiltIn, strict: false }
    }
}

/// The views of a list of strings.
pub open spec fn views(words: Seq<String>) -> Seq<Seq<char>> {
    words.map_values(|w: String| w@)
}

/// The list that a setting names, given the bundled one.
pub open spec fn resolved(list: WordList, builtin: Seq<String>) -> Seq<String> {
    match list {
        WordList::BuiltIn => builtin,
        WordList::Custom(words) => words@,
    }
}

/// The letters of a scored row.
pub open spec fn letters(row: Seq<Guess>) -> Seq<char> {
    row.map_values(|g: Guess| g.letter)
}

/// A guess as the game reads it: trimmed, then in lower case.
pub open spec fn normalized(raw: Seq<char>) -> Seq<char> {
    lower_of(trimmed(raw))
}

/// The letters of a string, one by one.
fn chars_of(s: &str) -> (r: Vec<char>)
    ensures
        r@ == s@,
{
    let n: usize = s.unicode_len();
    let mut out: Vec<char> = Vec::new();
    let mut i: usize = 0;
    while i < n
        invariant
            n == s@.len(),
            i <= n,
            out@ == s@.subrange(0, i as int),
        decreases n - i,
    {
        out.push(s.get_char(i));
        i = i + 1;
    }
    out
}

/// One round of the game: the secret word, the word list and the guesses
/// scored so far.
pub struct Wordle {
    guesses: Vec<Vec<Guess>>,
    word: String,
    secret: Vec<char>,
    word_list: Vec<String>,
    settings: WordleSettings,
    solved: bool,
}

impl Wordle {
    /// The scored guesses, oldest first.
    pub closed spec fn rows(&self) -> Seq<Seq<Guess>> {
        self.guesses@.map_values(|r: Vec<Guess>| r@)
    }

    /// The secret word.
    pub closed spec fn secret_word(&self) -> Seq<char> {
        self.word@
    }

    /// The words that the game knows.
    pub closed spec fn words(&self) -> Seq<Seq<char>> {
        views(self.word_list@)
    }

    /// The number of letters of a word.
    pub closed spec fn word_length_spec(&self) -> nat {
        self.settings.word_length as nat
    }

    /// The number of guesses allowed.
    pub closed spec fn max_guesses_spec(&self) -> nat {
        self.settings.max_guesses as nat
    }

    /// Whether guesses must come from the word list.
    pub closed spec fn strict_spec(&self) -> bool {
        self.settings.strict
    }

    /// Whether a guess spelled the secret.
    pub closed spec fn solved_spec(&self) -> bool {
        self.solved
    }

    /// Every guess was used without finding the secret.
    pub open spec fn failed_spec(&self) -> bool {
        self.rows().len() == self.max_guesses_spec() && !self.solved_spec()
    }

    /// No guess is taken any more.
    pub open spec fn over_spec(&self) -> bool {
        self.solved_spec() || self.rows().len() >= self.max_guesses_spec()
    }

    /// The state is consistent: the secret has the configured length, no more
    /// guesses than allowed were scored, each row is the score of its own
    /// letters against the secret, and the game is solved exactly when some
    /// row spells the secret.
    pub closed spec fn wf(&self) -> bool {
        &&& self.word@.len() == self.settings.word_length
        &&& self.secret@ == self.word@
        &&& self.rows().len() <= self.settings.max_guesses
        &&& forall|i: int|
            0 <= i < self.rows().len() ==> {
                &&& (#[trigger] self.rows()[i]).len() == self.settings.word_length
                &&& is_score(self.rows()[i], self.word@, letters(self.rows()[i]))
            }
        &&& self.solved == exists|i: int|
            0 <= i < self.rows().len() && letters(#[trigger] self.rows()[i]) == self.word@
    }

    /// The cell at row `x`, column `y`, once that guess was played.
    pub open spec fn cell_spec(&self, x: int, y: int) -> Option<Guess> {
        if 0 <= x < self.rows().len() && 0 <= y < self.rows()[x].len() {
            Some(self.rows()[x][y])
        } else {
            None
        }
    }

    /// A game whose secret is given.
    pub fn with_secret(settings: WordleSettings, builtin: Vec<String>, secret: String) -> (r: Result<
        Wordle,
        WordleError,
    >)
        ensures
            resolved(settings.word_list, builtin@).len() == 0 <==> r matches Err(
                WordleError::EmptyWordList,
            ),
            (resolved(settings.word_list, builtin@).len() > 0 && secret@.len()
                != settings.word_length) <==> r matches Err(WordleError::SecretLength { .. }),
            r matches Err(WordleError::SecretLength { expected, word }) ==> expected
                == settings.word_length && word@ == secret@,
            r matches Ok(g) ==> {
                &&& g.wf()
                &&& g.secret_word() == secret@
                &&& g.words() == views(resolved(settings.word_list, builtin@))
                &&& g.rows().len() == 0
                &&& !g.solved_spec()
                &&& g.word_length_spec() == settings.word_length
                &&& g.max_guesses_spec() == settings.max_guesses
                &&& g.strict_spec() == settings.strict
            },
    {
        let word_list = match &settings.word_list {
            WordList::BuiltIn => builtin,
            WordList::Custom(words) => words.clone(),
        };
        proof {
            assert(word_list@ =~= resolved(settings.word_list, builtin@));
        }
        Self::assemble(settings, word_list, secret)
    }

    /// A game whose secret is drawn at random from its word list.
    pub fn new(settings: WordleSettings, builtin: Vec<String>) -> (r: Result<Wordle, WordleError>)
        ensures
            resolved(settings.word_list, builtin@).len() == 0 <==> r matches Err(
                WordleError::EmptyWordList,
            ),
            r matches Err(WordleError::SecretLength { expected, word }) ==> {
                &&& expected == settings.word_length
                &&& word@.len() != settings.word_length
                &&& exists|i: int|
                    0 <= i < resolved(settings.word_list, builtin@).len() && #[trigger] resolved(
                        settings.word_list,
                        builtin@,
                    )[i]@ == word@
            },
            (resolved(settings.word_list, builtin@).len() > 0 && forall|i: int|
                0 <= i < resolved(settings.word_list, builtin@).len() ==> (#[trigger] resolved(
                    settings.word_list,
                    builtin@,
                )[i])@.len() == settings.word_length) ==> r is Ok,
            r is Err ==> r matches Err(WordleError::EmptyWordList) || r matches Err(
                WordleError::SecretLength { .. },
            ),
            r matches Ok(g) ==> {
                &&& g.wf()
                &&& exists|i: int|
                    0 <= i < resolved(settings.word_list, builtin@).len() && #[trigger] resolved(
                        settings.word_list,
                        builtin@,
                    )[i]@ == g.secret_word()
                &&& g.words() == views(resolved(settings.word_list, builtin@))
                &&& g.rows().len() == 0
                &&& !g.solved_spec()
                &&& g.word_length_spec() == settings.word_length
                &&& g.max_guesses_spec() == settings.max_guesses
                &&& g.strict_spec() == settings.strict
            },
    {
        let word_list = match &settings.word_list {
            WordList::BuiltIn => builtin,
            WordList::Custom(words) => words.clone(),
        };
        proof {
            assert(word_list@ =~= resolved(settings.word_list, builtin@));
        }
        match choose_word(&word_list) {
            None => Err(WordleError::EmptyWordList),
            Some(secret) => Self::assemble(settings, word_list, secret),
        }
    }

    fn assemble(settings: WordleSettings, word_list: Vec<String>, secret: String) -> (r: Result<
        Wordle,
        WordleError,
    >)
        ensures
            word_list@.len() == 0 <==> r matches Err(WordleError::EmptyWordList),
            (word_list@.len() > 0 && secret@.len() != settings.word_length) <==> r matches Err(
                WordleError::SecretLength { .. },
            ),
            r is Err ==> r matches Err(WordleError::EmptyWordList) || r matches Err(
                WordleError::SecretLength { .. },
            ),
            r matches Err(WordleError::SecretLength { expected, word }) ==> expected
                == settings.word_length && word@ == secret@,
            r matches Ok(g) ==> {
                &&& g.wf()
                &&& g.secret_word() == secret@
                &&& g.words() == views(word_list@)
                &&& g.rows().len() == 0
                &&& !g.solved_spec()
                &&& g.word_length_spec() == settings.word_length
                &&& g.max_guesses_spec() == settings.max_guesses
                &&& g.strict_spec() == settings.strict
            },
    {
        if word_list.len() == 0 {
            return Err(WordleError::EmptyWordList);
        }
        let letters = chars_of(secret.as_str());
        if letters.len() != settings.word_length {
            return Err(WordleError::SecretLength { expected: settings.word_length, word: secret });
        }
        let g = Wordle {
            guesses: Vec::new(),
            word: secret,
            secret: letters,
            word_list,
            settings,
            solved: false,
        };
        proof {
            assert(g.rows() =~= Seq::empty());
        }
        Ok(g)
    }

    /// Takes one guess: it is trimmed and put in lower case, then refused if
    /// its length is wrong, if the game is over, or (in strict mode) if it is
    /// not in the word list; otherwise it is scored and recorded, and the game
    /// is solved when it spells the secret.
    pub fn guess_word(&mut self, guess: String) -> (r: Result<(), WordleError>)
        requires
            old(self).wf(),
        ensures
            final(self).wf(),
            final(self).secret_word() == old(self).secret_word(),
            final(self).words() == old(self).words(),
            final(self).word_length_spec() == old(self).word_length_spec(),
            final(self).max_guesses_spec() == old(self).max_guesses_spec(),
            final(self).strict_spec() == old(self).strict_spec(),
            r is Err ==> final(self).rows() == old(self).rows() && final(self).solved_spec()
                == old(self).solved_spec(),
            normalized(guess@).len() != old(self).word_length_spec() <==> r matches Err(
                WordleError::WrongLength { .. },
            ),
            r matches Err(WordleError::WrongLength { expected }) ==> expected
                == old(self).word_length_spec(),
            (normalized(guess@).len() == old(self).word_length_spec() && old(self).over_spec())
                <==> r matches Err(WordleError::NoGuessesLeft { .. }),
            r matches Err(WordleError::NoGuessesLeft { word }) ==> word@ == old(
                self,
            ).secret_word(),
            (normalized(guess@).len() == old(self).word_length_spec() && !old(self).over_spec()
                && old(self).strict_spec() && !old(self).words().contains(normalized(guess@)))
                <==> r matches Err(WordleError::NotAWord { .. }),
            r matches Err(WordleError::NotAWord { word }) ==> word@ == normalized(guess@),
            r is Err ==> r matches Err(WordleError::WrongLength { .. }) || r matches Err(
                WordleError::NoGuessesLeft { .. },
            ) || r matches Err(WordleError::NotAWord { .. }),
            r is Ok ==> {
                &&& final(self).rows().len() == old(self).rows().len() + 1
                &&& final(self).rows().drop_last() == old(self).rows()
                &&& is_score(final(self).rows().last(), old(self).secret_word(), normalized(guess@))
                &&& final(self).solved_spec() == (normalized(guess@) == old(self).secret_word())
            },
            r is Ok && normalized(guess@) == old(self).secret_word() ==> {
                &&& final(self).solved_spec()
                &&& forall|i: int|
                    0 <= i < final(self).rows().last().len()
                        ==> (#[trigger] final(self).rows().last()[i]).occurrence
                        == Occurrence::Correct
            },
            r is Ok && normalized(guess@) != old(self).secret_word()
                ==> missed(*old(self), *final(self)),
    {
        let cut = trim(guess.as_str());
        let lowered = to_lowercase(cut);
        let letters_in = chars_of(lowered.as_str());
        if letters_in.len() != self.settings.word_length {
            return Err(WordleError::WrongLength { expected: self.settings.word_length });
        }
        if self.solved || self.guesses.len() >= self.settings.max_guesses {
            return Err(WordleError::NoGuessesLeft { word: self.word.clone() });
        }
        if !self.valid_word(&lowered) {
            return Err(WordleError::NotAWord { word: lowered });
        }
        let row = score(&self.secret, &letters_in);
        let ghost old_rows = self.rows();
        proof {
            assert(letters(row@) =~= lowered@);
        }
        let won = self.check_win(&lowered);
        self.guesses.push(row);
        proof {
            assert(self.rows() =~= old_rows.push(row@));
            assert(self.rows().drop_last() =~= old_rows);
            assert(self.rows()[old_rows.len() as int] == row@);
            if won {
                assert(letters(self.rows()[old_rows.len() as int]) == self.word@);
                lemma_exact_match(self.word@);
            } else {
                assert forall|i: int| 0 <= i < self.rows().len() implies letters(
                    #[trigger] self.rows()[i],
                ) != self.word@ by {
                    if i < old_rows.len() {
                        assert(self.rows()[i] == old_rows[i]);
                    }
                }
            }
        }
        Ok(())
    }

    /// Whether a word may be guessed: any word when the game is not strict,
    /// else only a word of the list.
    fn valid_word(&self, word: &String) -> (r: bool)
        ensures
            r == (!self.strict_spec() || self.words().contains(word@)),
    {
        if !self.settings.strict {
            return true;
        }
        let mut j: usize = 0;
        while j < self.word_list.len()
            invariant
                j <= self.word_list@.len(),
                forall|k: int| 0 <= k < j ==> #[trigger] self.word_list@[k]@ != word@,
            decreases self.word_list@.len() - j,
        {
            if self.word_list[j] == *word {
                proof {
                    assert(self.words()[j as int] == word@);
                }
                return true;
            }
            j = j + 1;
        }
        proof {
            assert forall|k: int| 0 <= k < self.words().len() implies #[trigger] self.words()[k]
                != word@ by {
                assert(self.word_list@[k]@ != word@);
            }
        }
        false
    }

    /// Marks the game solved when the guess is the secret.
    fn check_win(&mut self, guess: &String) -> (r: bool)
        ensures
            r == (guess@ == old(self).word@),
            final(self).solved == (old(self).solved || r),
            final(self).guesses == old(self).guesses,
            final(self).word == old(self).word,
            final(self).secret == old(self).secret,
            final(self).word_list == old(self).word_list,
            final(self).settings == old(self).settings,
    {
        if self.word == *guess {
            self.solved = true;
            return true;
        }
        false
    }

    /// The number of guesses scored so far.
    pub fn guess_amount(&self) -> (r: usize)
        ensures
            r == self.rows().len(),
    {
        self.guesses.len()
    }

    /// The number of guesses allowed.
    pub fn max_guesses(&self) -> (r: usize)
        ensures
            r == self.max_guesses_spec(),
    {
        self.settings.max_guesses
    }

    /// The secret word.
    pub fn word(&self) -> (r: &str)
        ensures
            r@ == self.secret_word(),
    {
        self.word.as_str()
    }

    /// Whether the secret was found.
    pub fn is_solved(&self) -> (r: bool)
        ensures
            r == self.solved_spec(),
    {
        self.solved
    }

    /// Whether every guess was used without finding the secret.
    pub fn is_failed(&self) -> (r: bool)
        ensures
            r == self.failed_spec(),
    {
        self.guesses.len() == self.settings.max_guesses && !self.solved
    }

    /// The grid of the game: a line per allowed guess, a bracketed cell per
    /// letter, blank where nothing was played yet.
    pub fn render(&self) -> (r: String)
        ensures
            r@ == grid_text(*self, self.max_guesses_spec() as int),
    {
        let mut out = String::new();
        let mut x: usize = 0;
        while x < self.settings.max_guesses
            invariant
                x <= self.max_guesses_spec(),
                out@ == grid_text(*self, x as int),
            decreases self.max_guesses_spec() - x,
        {
            let ghost start = out@;
            let mut y: usize = 0;
            while y < self.settings.word_length
                invariant
                    x < self.max_guesses_spec(),
                    y <= self.word_length_spec(),
                    out@ == start + row_text(*self, x as int, y as int),
                decreases self.word_length_spec() - y,
            {
                let cell = print(self.get_cell(x, y));
                out.append("[");
                out.append(cell.as_str());
                out.append("]");
                proof {
                    reveal_strlit("[");
                    reveal_strlit("]");
                    assert(out@ =~= start + row_text(*self, x as int, y + 1));
                }
                y = y + 1;
            }
            out.append("\n");
            proof {
                reveal_strlit("\n");
                assert(out@ =~= grid_text(*self, x + 1));
            }
            x = x + 1;
        }
        out
    }

    /// The letter at row `x`, column `y`, if that guess was played.
    pub fn get_cell(&self, x: usize, y: usize) -> (r: Option<Guess>)
        ensures
            r == self.cell_spec(x as int, y as int),
    {
        if x < self.guesses.len() {
            let row = &self.guesses[x];
            if y < row.len() {
                return Some(row[y]);
            }
        }
        None
    }
}

/// What a cell shows: a blank before it is played, else its letter in the
/// colour of its classification.
pub open spec fn cell_text(cell: Option<Guess>) -> Seq<char> {
    match cell {
        None => seq![' '],
        Some(g) => painted(colour_digit(g.occurrence), g.letter),
    }
}

/// The first `n` cells of row `x`, each in brackets.
pub open spec fn row_text(game: Wordle, x: int, n: int) -> Seq<char>
    decreases n,
{
    if n <= 0 {
        Seq::empty()
    } else {
        row_text(game, x, n - 1) + seq!['['] + cell_text(game.cell_spec(x, n - 1)) + seq![']']
    }
}

/// The first `m` rows of the grid, one line each.
pub open spec fn grid_text(game: Wordle, m: int) -> Seq<char>
    decreases m,
{
    if m <= 0 {
        Seq::empty()
    } else {
        grid_text(game, m - 1) + row_text(game, m - 1, game.word_length_spec() as int) + seq!['\n']
    }
}

/// The text of one cell.
fn print(cell: Option<Guess>) -> (r: String)
    ensures
        r@ == cell_text(cell),
{
    match cell {
        None => {
            proof {
                reveal_strlit(" ");
            }
            String::from_str(" ")
        },
        Some(g) => paint(g.letter, g.occurrence),
    }
}

/// One accepted guess that did not find the secret: one more row, still
/// unsolved, under the same limit.
pub open spec fn missed(before: Wordle, after: Wordle) -> bool {
    &&& after.rows().len() == before.rows().len() + 1
    &&& !after.solved_spec()
    &&& after.max_guesses_spec() == before.max_guesses_spec()
}

/// A game is never solved and failed at once.
pub proof fn lemma_terminal_exclusive(g: &Wordle)
    ensures
        !(g.solved_spec() && g.failed_spec()),
{
}

/// From a fresh game, as many accepted guesses as the limit allows, none of
/// which finds the secret, leave the game failed.
pub proof fn lemma_exhaustion(states: Seq<Wordle>)
    requires
        states.len() > 0,
        states.len() == states[0].max_guesses_spec() + 1,
        states[0].rows().len() == 0,
        !states[0].solved_spec(),
        forall|k: int| 0 <= k < states.len() - 1 ==> #[trigger] missed(states[k], states[k + 1]),
    ensures
        states.last().failed_spec(),
{
    lemma_run_of_misses(states, states.len() - 1);
}

proof fn lemma_run_of_misses(states: Seq<Wordle>, k: int)
    requires
        0 <= k < states.len(),
        states[0].rows().len() == 0,
        forall|m: int| 0 <= m < states.len() - 1 ==> #[trigger] missed(states[m], states[m + 1]),
    ensures
        states[k].rows().len() == k,
        states[k].max_guesses_spec() == states[0].max_guesses_spec(),
        k > 0 ==> !states[k].solved_spec(),
    decreases k,
{
    if k > 0 {
        lemma_run_of_misses(states, k - 1);
        assert(missed(states[k - 1], states[k]));
    }
}

} // verus!
