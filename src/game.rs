use rand::rngs::StdRng;
use vstd::prelude::*;

use crate::card::{Card, rank_text};
use crate::deck::{Deck, standard_deck};
use crate::random::{entropy_rng, seeded_rng};
use vstd::arithmetic::div_mod::{lemma_add_mod_noop, lemma_mod_add_multiples_vanish, lemma_small_mod};
use vstd::multiset::Multiset;
use vstd::seq_lib::lemma_multiset_commutative;

verus! {

/// The cards one player holds.
pub struct Hand {
    pub cards: Vec<Card>,
}

/// A display name and the hand that goes with it.
pub struct Player {
    pub name: String,
    pub hand: Hand,
}

/// What a play leads to.
pub enum GameStatus {
    PlayerWon(String),
    GameContinues,
}

/// The players in turn order, the draw pile, the discard pile, the face-up
/// card, whose turn it is, and who has won once someone has. A won game is
/// over: no further turn changes it.
pub struct Game {
    pub players: Vec<Player>,
    pub current_card: Option<Card>,
    pub deck: Deck,
    pub discard_pile: Deck,
    pub current_player: usize,
    pub winner: Option<String>,
    pub rng: StdRng,
}

/// The decimal digits of `n`, most significant first.
pub open spec fn decimal(n: nat) -> Seq<char>
    decreases n,
{
    if n < 10 {
        seq![('0' as u8 + n) as char]
    } else {
        decimal(n / 10) + seq![('0' as u8 + (n % 10)) as char]
    }
}

/// The name of the player at position `k`, counted from 1.
pub open spec fn player_name(k: nat) -> Seq<char> {
    "Player "@ + decimal(k)
}

/// The decimal text of a seat number.
fn seat_text(k: usize) -> (r: &'static str)
    requires
        1 <= k <= 10,
    ensures
        r@ == decimal(k as nat),
{
    proof {
        reveal_strlit("1");
        reveal_strlit("2");
        reveal_strlit("3");
        reveal_strlit("4");
        reveal_strlit("5");
        reveal_strlit("6");
        reveal_strlit("7");
        reveal_strlit("8");
        reveal_strlit("9");
        reveal_strlit("10");
        assert(decimal(1) =~= seq!['1']);
        assert(decimal(10) =~= seq!['1', '0']);
    }
    match k {
        1 => "1",
        2 => "2",
        3 => "3",
        4 => "4",
        5 => "5",
        6 => "6",
        7 => "7",
        8 => "8",
        9 => "9",
        _ => "10",
    }
}

/// "Player " followed by the seat number `k`.
fn name_for(k: usize) -> (r: String)
    requires
        1 <= k <= 10,
    ensures
        r@ == player_name(k as nat),
{
    let mut name = String::from_str("Player ");
    name.append(seat_text(k));
    proof {
        reveal_strlit("Player ");
    }
    name
}

/// All the cards held in the hands of `players`.
pub open spec fn hands(players: Seq<Player>) -> Multiset<Card>
    decreases players.len(),
{
    if players.len() == 0 {
        Multiset::empty()
    } else {
        hands(players.drop_last()).add(players.last().hand.cards@.to_multiset())
    }
}

/// The player after `p` in a circle of `n`.
pub open spec fn next_index(p: nat, n: nat) -> nat {
    (p + 1) % n
}

/// The player whose turn it is after `k` turns, starting from `p`.
pub open spec fn after_turns(p: nat, n: nat, k: nat) -> nat
    decreases k,
{
    if k == 0 {
        p
    } else {
        next_index(after_turns(p, n, (k - 1) as nat), n)
    }
}

impl Game {
    /// Every card of the draw pile, the discard pile and the hands.
    pub open spec fn all_cards(&self) -> Multiset<Card> {
        self.deck.cards@.to_multiset().add(self.discard_pile.cards@.to_multiset()).add(
            hands(self.players@),
        )
    }

    /// The cards that a draw can still reach.
    pub open spec fn available(&self) -> nat {
        self.deck.cards@.len() + self.discard_pile.cards@.len()
    }

    /// The hand of the player at position `i`.
    pub open spec fn hand(&self, i: int) -> Seq<Card> {
        self.players@[i].hand.cards@
    }

    /// Between two and ten players, a valid turn index, and exactly the cards
    /// of one standard deck spread over piles and hands.
    pub open spec fn wf(&self) -> bool {
        &&& 2 <= self.players@.len() <= 10
        &&& self.current_player < self.players@.len()
        &&& self.all_cards() == standard_deck().to_multiset()
    }

    /// The state right after setting up a game for `n` players.
    pub open spec fn is_fresh(&self, n: nat) -> bool {
        &&& self.wf()
        &&& self.players@.len() == n
        &&& forall|i: int|
            0 <= i < n ==> #[trigger] self.players@[i].name@ == player_name((i + 1) as nat)
        &&& forall|i: int| 0 <= i < n ==> #[trigger] self.hand(i).len() == 7
        &&& hands(self.players@).len() == 7 * n
        &&& self.deck.cards@.len() == 108 - 7 * n
        &&& self.discard_pile.cards@.len() == 0
        &&& self.current_card.is_none()
        &&& self.current_player == 0
        &&& self.winner.is_none()
    }

    /// A game for `num_players` players, shuffled from the system's entropy.
    pub fn new(num_players: usize) -> (g: Game)
        requires
            2 <= num_players <= 10,
        ensures
            g.is_fresh(num_players as nat),
    {
        Game::with_rng(num_players, entropy_rng())
    }

    /// A game for `num_players` players whose shuffles are fixed by `seed`.
    pub fn with_seed(num_players: usize, seed: u64) -> (g: Game)
        requires
            2 <= num_players <= 10,
        ensures
            g.is_fresh(num_players as nat),
    {
        Game::with_rng(num_players, seeded_rng(seed))
    }

    /// A game for `num_players` players: players named "Player 1" onwards, a
    /// shuffled standard deck, and seven cards dealt to each player.
    pub fn with_rng(num_players: usize, rng: StdRng) -> (g: Game)
        requires
            2 <= num_players <= 10,
        ensures
            g.is_fresh(num_players as nat),
    {
        let mut players: Vec<Player> = Vec::new();
        let mut i: usize = 0;
        while i < num_players
            invariant
                i <= num_players <= 10,
                players@.len() == i,
                forall|j: int|
                    0 <= j < i ==> #[trigger] players@[j].name@ == player_name((j + 1) as nat),
                forall|j: int| 0 <= j < i ==> (#[trigger] players@[j]).hand.cards@.len() == 0,
            decreases num_players - i,
        {
            players.push(Player { name: name_for(i + 1), hand: Hand { cards: Vec::new() } });
            i = i + 1;
        }
        let mut rng = rng;
        let deck = Deck::new(&mut rng);
        let ghost names = players@;
        let mut game = Game {
            players,
            current_card: None,
            deck,
            discard_pile: Deck { cards: Vec::new() },
            current_player: 0,
            winner: None,
            rng,
        };
        proof {
            broadcast use vstd::seq_lib::group_to_multiset_ensures;

            lemma_hands_empty(game.players@);
            assert(game.discard_pile.cards@.to_multiset().len() == 0);
            assert(game.all_cards() =~= standard_deck().to_multiset());
        }
        game.deal_cards();
        proof {
            assert forall|j: int| 0 <= j < game.players@.len() implies (#[trigger] game.players@[j]).hand.cards@.len() == 7 by {
                assert(game.hand(j).len() == 7 * j + 7 - 7 * j);
                assert(7 * j + 7 <= 7 * (num_players as int)) by (nonlinear_arith)
                    requires j < num_players;
            }
            lemma_hands_len(game.players@, 7);
            assert forall|j: int| 0 <= j < num_players implies #[trigger] game.players@[j].name@
                == player_name((j + 1) as nat) && game.hand(j).len() == 7 by {
                assert(game.hand(j) == game.players@[j].hand.cards@);
                assert(game.players@[j].name == names[j].name);
                assert(game.players@[j].hand.cards@.len() == 7);
            }
        }
        game
    }

    /// Gives each player, in turn order, the next seven cards of the deck.
    pub fn deal_cards(&mut self)
        requires
            old(self).wf(),
            old(self).deck.cards@.len() >= 7 * old(self).players@.len(),
            forall|i: int| 0 <= i < old(self).players@.len() ==> #[trigger] old(self).hand(i).len() == 0,
        ensures
            final(self).wf(),
            final(self).players@.len() == old(self).players@.len(),
            forall|i: int|
                0 <= i < old(self).players@.len() ==> #[trigger] final(self).hand(i) == old(
                    self,
                ).deck.cards@.subrange(7 * i, 7 * i + 7),
            forall|i: int|
                0 <= i < old(self).players@.len() ==> #[trigger] final(self).players@[i].name
                    == old(self).players@[i].name,
            final(self).deck.cards@ == old(self).deck.cards@.subrange(
                7 * old(self).players@.len() as int,
                old(self).deck.cards@.len() as int,
            ),
            final(self).discard_pile.cards@ == old(self).discard_pile.cards@,
            final(self).current_card == old(self).current_card,
            final(self).current_player == old(self).current_player,
            final(self).winner == old(self).winner,
    {
        let n = self.players.len();
        let mut i: usize = 0;
        while i < n
            invariant
                n == self.players@.len() == old(self).players@.len(),
                i <= n <= 10,
                old(self).deck.cards@.len() >= 7 * n,
                self.deck.cards@ == old(self).deck.cards@.subrange(
                    7 * i,
                    old(self).deck.cards@.len() as int,
                ),
                forall|j: int|
                    0 <= j < n ==> #[trigger] self.players@[j].name == old(self).players@[j].name,
                forall|j: int|
                    0 <= j < i ==> #[trigger] self.hand(j) == old(self).deck.cards@.subrange(
                        7 * j,
                        7 * j + 7,
                    ),
                forall|j: int| i <= j < n ==> #[trigger] self.hand(j).len() == 0,
                self.discard_pile.cards@ == old(self).discard_pile.cards@,
                self.current_card == old(self).current_card,
                self.current_player == old(self).current_player,
                self.winner == old(self).winner,
                self.all_cards() == old(self).all_cards(),
            decreases n - i,
        {
            let ghost before = *self;
            let dealt = self.deck.deal(7);
            self.players[i].hand = Hand { cards: dealt };
            proof {
                broadcast use vstd::seq_lib::group_to_multiset_ensures;

                let d = before.deck.cards@;
                lemma_multiset_commutative(dealt@, self.deck.cards@);
                assert(d =~= dealt@ + self.deck.cards@);
                lemma_hands_update(before.players@, i as int, self.players@[i as int]);
                assert(self.players@ =~= before.players@.update(i as int, self.players@[i as int]));
                lemma_empty_multiset(before.hand(i as int));
                assert(d.to_multiset() == dealt@.to_multiset().add(self.deck.cards@.to_multiset()));
                let t = dealt@.to_multiset();
                assert(self.players@[i as int].hand.cards@ == dealt@);
                assert(hands(self.players@).add(Multiset::empty()) == hands(before.players@).add(t));
                assert forall|x: Card| #[trigger] self.all_cards().count(x) == before.all_cards().count(x) by {
                    assert(hands(self.players@).add(Multiset::empty()).count(x) == hands(before.players@).add(t).count(x));
                    assert(d.to_multiset().count(x) == t.count(x) + self.deck.cards@.to_multiset().count(x));
                }
                assert(self.all_cards() =~= before.all_cards());
                assert(self.deck.cards@ =~= old(self).deck.cards@.subrange(
                    7 * (i + 1),
                    old(self).deck.cards@.len() as int,
                ));
                assert(self.hand(i as int) =~= old(self).deck.cards@.subrange(
                    7 * i,
                    7 * i + 7,
                ));
                assert forall|j: int| i + 1 <= j < n implies #[trigger] self.hand(j).len() == 0 by {
                    assert(self.players@[j] == before.players@[j]);
                    assert(before.hand(j).len() == 0);
                }
                assert forall|j: int| 0 <= j < i + 1 implies #[trigger] self.hand(j)
                    == old(self).deck.cards@.subrange(7 * j, 7 * j + 7) by {
                    if j < i {
                        assert(self.players@[j] == before.players@[j]);
                        assert(before.hand(j) == old(self).deck.cards@.subrange(7 * j, 7 * j + 7));
                    }
                }
            }
            i = i + 1;
        }
    }
}

impl Game {
    /// Passes the turn to the next player in seating order, wrapping round.
    /// A won game stays as it is.
    pub fn next_turn(&mut self)
        requires
            old(self).wf(),
        ensures
            final(self).wf(),
            old(self).winner is Some ==> *final(self) == *old(self),
            old(self).winner is None ==> {
                &&& final(self).current_player == next_index(
                    old(self).current_player as nat,
                    old(self).players@.len(),
                )
                &&& final(self).players == old(self).players
                &&& final(self).deck == old(self).deck
                &&& final(self).discard_pile == old(self).discard_pile
                &&& final(self).current_card == old(self).current_card
                &&& final(self).winner == old(self).winner
                &&& final(self).rng == old(self).rng
            },
    {
        if self.winner.is_some() {
            return;
        }
        self.current_player = (self.current_player + 1) % self.players.len();
    }

    /// The current player puts the last card of their hand face up on the
    /// discard pile. Emptying the hand wins the game, which then ends: every
    /// later play reports the same winner and changes nothing.
    pub fn play_card(&mut self) -> (r: GameStatus)
        requires
            old(self).wf(),
        ensures
            final(self).wf(),
            old(self).winner matches Some(w) ==> r == GameStatus::PlayerWon(w) && *final(self)
                == *old(self),
            old(self).winner is None ==> ({
                let p = old(self).current_player as int;
                let hand = old(self).hand(p);
                &&& hand.len() == 0 ==> r == GameStatus::GameContinues && *final(self) == *old(self)
                &&& hand.len() > 0 ==> {
                    &&& final(self).hand(p) == hand.drop_last()
                    &&& final(self).current_card == Some(hand.last())
                    &&& final(self).discard_pile.cards@ == old(self).discard_pile.cards@.push(
                        hand.last(),
                    )
                    &&& final(self).deck == old(self).deck
                    &&& final(self).current_player == old(self).current_player
                    &&& final(self).players@.len() == old(self).players@.len()
                    &&& final(self).players@[p].name == old(self).players@[p].name
                    &&& forall|j: int|
                        0 <= j < old(self).players@.len() && j != p ==> #[trigger] final(self).players@[j]
                            == old(self).players@[j]
                    &&& r == if hand.len() == 1 {
                        GameStatus::PlayerWon(old(self).players@[p].name)
                    } else {
                        GameStatus::GameContinues
                    }
                    &&& final(self).winner == if hand.len() == 1 {
                        Some(old(self).players@[p].name)
                    } else {
                        None
                    }
                }
            }),
    {
        match &self.winner {
            Some(w) => {
                return GameStatus::PlayerWon(w.clone());
            },
            None => {},
        }
        let p = self.current_player;
        if self.players[p].hand.cards.len() == 0 {
            return GameStatus::GameContinues;
        }
        let ghost before = *self;
        let card = self.players[p].hand.cards.pop();
        match card {
            Some(c) => {
                self.current_card = Some(c);
                self.discard_pile.cards.push(c);
                proof {
                    broadcast use vstd::seq_lib::group_to_multiset_ensures;

                    let bp = before.players@;
                    let hand = before.hand(p as int);
                    assert(hand =~= hand.drop_last().push(c));
                    assert(self.players@ =~= bp.update(p as int, self.players@[p as int]));
                    lemma_hands_update(bp, p as int, self.players@[p as int]);
                    let h_new = hands(self.players@);
                    let h_old = hands(bp);
                    assert forall|x: Card| #[trigger] self.all_cards().count(x)
                        == before.all_cards().count(x) by {
                        assert(h_new.add(hand.to_multiset()).count(x) == h_old.add(
                            hand.drop_last().to_multiset(),
                        ).count(x));
                    }
                    assert(self.all_cards() =~= before.all_cards());
                }
                if self.players[p].hand.cards.len() == 0 {
                    self.winner = Some(self.players[p].name.clone());
                    GameStatus::PlayerWon(self.players[p].name.clone())
                } else {
                    GameStatus::GameContinues
                }
            },
            None => GameStatus::GameContinues,
        }
    }

    /// Moves every card of the discard pile onto the draw pile and shuffles it.
    pub fn shuffle_deck_from_discard(&mut self)
        requires
            old(self).wf(),
        ensures
            final(self).wf(),
            final(self).discard_pile.cards@.len() == 0,
            final(self).deck.cards@.len() == old(self).deck.cards@.len()
                + old(self).discard_pile.cards@.len(),
            final(self).deck.cards@.to_multiset() == old(self).deck.cards@.to_multiset().add(
                old(self).discard_pile.cards@.to_multiset(),
            ),
            final(self).players == old(self).players,
            final(self).current_card == old(self).current_card,
            final(self).current_player == old(self).current_player,
            final(self).winner == old(self).winner,
    {
        self.deck.cards.append(&mut self.discard_pile.cards);
        self.deck.shuffle(&mut self.rng);
        proof {
            lemma_multiset_commutative(
                old(self).deck.cards@,
                old(self).discard_pile.cards@,
            );
            lemma_empty_multiset(self.discard_pile.cards@);
            assert(self.all_cards() =~= old(self).all_cards());
        }
    }

    /// The current player takes the card at the end of the draw pile. When
    /// the draw pile is empty the discard pile is shuffled into it first.
    /// Some card must be left in one of the two piles. A won game stays as
    /// it is.
    pub fn draw_card(&mut self)
        requires
            old(self).wf(),
            old(self).available() > 0,
        ensures
            final(self).wf(),
            old(self).winner is Some ==> *final(self) == *old(self),
            ({
                let p = old(self).current_player as int;
                let hand = old(self).hand(p);
                let deck = old(self).deck.cards@;
                let discard = old(self).discard_pile.cards@;
                old(self).winner is None ==> {
                    &&& final(self).winner == old(self).winner
                    &&& final(self).hand(p).len() == hand.len() + 1
                    &&& final(self).hand(p).drop_last() == hand
                    &&& final(self).available() + 1 == old(self).available()
                    &&& final(self).current_player == old(self).current_player
                    &&& final(self).current_card == old(self).current_card
                    &&& final(self).players@.len() == old(self).players@.len()
                    &&& final(self).players@[p].name == old(self).players@[p].name
                    &&& forall|j: int|
                        0 <= j < old(self).players@.len() && j != p ==> #[trigger] final(self).players@[j]
                            == old(self).players@[j]
                    &&& deck.len() > 0 ==> {
                        &&& final(self).hand(p) == hand.push(deck.last())
                        &&& final(self).deck.cards@ == deck.drop_last()
                        &&& final(self).discard_pile == old(self).discard_pile
                    }
                    &&& deck.len() == 0 ==> {
                        &&& final(self).discard_pile.cards@.len() == 0
                        &&& final(self).deck.cards@.len() + 1 == discard.len()
                        &&& final(self).deck.cards@.to_multiset().insert(final(self).hand(p).last())
                            == discard.to_multiset()
                    }
                }
            }),
    {
        if self.winner.is_some() {
            return;
        }
        if self.deck.cards.len() == 0 {
            self.shuffle_deck_from_discard();
            proof {
                lemma_empty_multiset(old(self).deck.cards@);
                assert(self.deck.cards@.to_multiset() =~= old(self).discard_pile.cards@.to_multiset());
            }
        }
        let ghost before = *self;
        let card = self.deck.draw_one();
        match card {
            Some(c) => {
                let p = self.current_player;
                self.players[p].hand.cards.push(c);
                proof {
                    broadcast use vstd::seq_lib::group_to_multiset_ensures;

                    let bp = before.players@;
                    let hand = before.hand(p as int);
                    let d = before.deck.cards@;
                    assert(d =~= d.drop_last().push(c));
                    assert(self.players@ =~= bp.update(p as int, self.players@[p as int]));
                    lemma_hands_update(bp, p as int, self.players@[p as int]);
                    let h_new = hands(self.players@);
                    let h_old = hands(bp);
                    assert forall|x: Card| #[trigger] self.all_cards().count(x)
                        == before.all_cards().count(x) by {
                        assert(h_new.add(hand.to_multiset()).count(x) == h_old.add(
                            hand.push(c).to_multiset(),
                        ).count(x));
                    }
                    assert(self.all_cards() =~= before.all_cards());
                    assert(self.hand(p as int).drop_last() =~= hand);
                }
            },
            None => {},
        }
    }
}

/// The labels of the current player's cards, in the order they are held.
pub fn get_current_hand(game: &Game) -> (r: Vec<String>)
    requires
        game.wf(),
    ensures
        r@.len() == game.hand(game.current_player as int).len(),
        forall|i: int|
            0 <= i < r@.len() ==> #[trigger] r@[i]@ == "|"@ + rank_text(
                game.hand(game.current_player as int)[i].rank,
            ) + "|"@,
{
    let cards = &game.players[game.current_player].hand.cards;
    let mut labels: Vec<String> = Vec::new();
    let mut i: usize = 0;
    while i < cards.len()
        invariant
            i <= cards@.len(),
            cards@ == game.hand(game.current_player as int),
            labels@.len() == i,
            forall|j: int|
                0 <= j < i ==> #[trigger] labels@[j]@ == "|"@ + rank_text(cards@[j].rank) + "|"@,
        decreases cards@.len() - i,
    {
        labels.push(cards[i].label());
        i = i + 1;
    }
    labels
}

proof fn lemma_after_turns(p: nat, n: nat, k: nat)
    requires
        p < n,
    ensures
        after_turns(p, n, k) == (p + k) % n,
    decreases k,
{
    if k > 0 {
        lemma_after_turns(p, n, (k - 1) as nat);
        let a = (p + k - 1) as int;
        let prev = after_turns(p, n, (k - 1) as nat) as int;
        assert(prev == a % (n as int));
        assert(after_turns(p, n, k) == (prev + 1) % (n as int));
        lemma_add_mod_noop(a, 1, n as int);
        if n > 1 {
            lemma_small_mod(1, n);
        } else {
            assert((prev + 1) % 1 == 0);
            assert((a + 1) % 1 == 0);
        }
    } else {
        lemma_small_mod(p, n);
    }
}

/// The turn moves round the table as a rotation: after `k` turns from `p`
/// it is at `(p + k) mod n`, so after `n` turns it is back at `p`.
pub proof fn lemma_turn_rotation(p: nat, n: nat, k: nat)
    requires
        p < n,
    ensures
        after_turns(p, n, k) == (p + k) % n,
        after_turns(p, n, n) == p,
{
    lemma_after_turns(p, n, k);
    lemma_after_turns(p, n, n);
    lemma_mod_add_multiples_vanish(p as int, n as int);
    lemma_small_mod(p, n);
}

proof fn lemma_empty_multiset(s: Seq<Card>)
    requires
        s.len() == 0,
    ensures
        s.to_multiset() == Multiset::<Card>::empty(),
{
    broadcast use vstd::seq_lib::group_to_multiset_ensures;

    assert(s.to_multiset() =~= Multiset::<Card>::empty());
}

proof fn lemma_hands_empty(ps: Seq<Player>)
    requires
        forall|j: int| 0 <= j < ps.len() ==> (#[trigger] ps[j]).hand.cards@.len() == 0,
    ensures
        hands(ps) == Multiset::<Card>::empty(),
    decreases ps.len(),
{
    broadcast use vstd::seq_lib::group_to_multiset_ensures;

    if ps.len() > 0 {
        lemma_hands_empty(ps.drop_last());
        assert(ps.last().hand.cards@.to_multiset().len() == 0);
        assert(hands(ps) =~= Multiset::<Card>::empty());
    }
}

proof fn lemma_hands_len(ps: Seq<Player>, k: nat)
    requires
        forall|j: int| 0 <= j < ps.len() ==> (#[trigger] ps[j]).hand.cards@.len() == k,
    ensures
        hands(ps).len() == k * ps.len(),
    decreases ps.len(),
{
    broadcast use vstd::seq_lib::group_to_multiset_ensures;

    if ps.len() > 0 {
        lemma_hands_len(ps.drop_last(), k);
        assert(ps.last().hand.cards@.to_multiset().len() == k);
        assert(k * ps.len() == k * (ps.len() - 1) + k) by (nonlinear_arith);
    }
}

proof fn lemma_hands_update(ps: Seq<Player>, i: int, p: Player)
    requires
        0 <= i < ps.len(),
    ensures
        hands(ps.update(i, p)).add(ps[i].hand.cards@.to_multiset()) == hands(ps).add(
            p.hand.cards@.to_multiset(),
        ),
    decreases ps.len(),
{
    let qs = ps.update(i, p);
    let old_ms = ps[i].hand.cards@.to_multiset();
    let new_ms = p.hand.cards@.to_multiset();
    if i == ps.len() - 1 {
        assert(qs.drop_last() =~= ps.drop_last());
        assert(qs.last() == p);
        assert(hands(qs) == hands(ps.drop_last()).add(new_ms));
        assert(hands(ps) == hands(ps.drop_last()).add(old_ms));
        assert(hands(qs).add(old_ms) =~= hands(ps).add(new_ms));
    } else {
        lemma_hands_update(ps.drop_last(), i, p);
        assert(qs.drop_last() =~= ps.drop_last().update(i, p));
        assert(ps.drop_last()[i] == ps[i]);
        assert(qs.last() == ps.last());
        let last_ms = ps.last().hand.cards@.to_multiset();
        assert(hands(qs) == hands(qs.drop_last()).add(last_ms));
        assert(hands(ps) == hands(ps.drop_last()).add(last_ms));
        let hq = hands(qs.drop_last());
        let hp = hands(ps.drop_last());
        assert(hq.add(old_ms) == hp.add(new_ms));
        assert forall|x: Card| #[trigger] hands(qs).add(old_ms).count(x) == hands(ps).add(new_ms).count(x) by {
            assert(hq.add(old_ms).count(x) == hp.add(new_ms).count(x));
        }
        assert(hands(qs).add(old_ms) =~= hands(ps).add(new_ms));
    }
    assert(hands(qs).add(old_ms) =~= hands(ps).add(new_ms));
}

} // verus!
