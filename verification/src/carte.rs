//! The cards: four suits of fourteen ranks, and twenty-two trumps.

use vstd::prelude::*;

verus! {

/// One of the four suits. Suits are only ever compared for equality.
#[derive(Clone, Copy, Debug, PartialEq, Eq, Structural)]
pub enum Couleur {
    Carreau,
    Pique,
    Trefle,
    Coeur,
}

/// The rank of a suited card, from the ace (lowest) to the king (highest).
#[derive(Clone, Copy, Debug, PartialEq, Eq, Structural, PartialOrd, Ord)]
pub enum Valeur {
    As,
    Deux,
    Trois,
    Quatre,
    Cinq,
    Six,
    Sept,
    Huit,
    Neuf,
    Dix,
    Valet,
    Cavalier,
    Dame,
    Roi,
}

/// The rank of a trump: the Excuse (lowest), then the trumps numbered 1 to 21.
#[derive(Clone, Copy, Debug, PartialEq, Eq, Structural, PartialOrd, Ord)]
pub enum Atout {
    Excuse,
    Un,
    Deux,
    Trois,
    Quatre,
    Cinq,
    Six,
    Sept,
    Huit,
    Neuf,
    Dix,
    Onze,
    Douze,
    Treize,
    Quatorze,
    Quinze,
    Seize,
    DixSept,
    Dixhuit,
    Dixneuf,
    Vingt,
    VingEtUn,
}

/// A card: a suited card with its suit and rank, or a trump.
#[derive(Clone, Copy, Debug, PartialEq, Eq, Structural)]
pub enum Carte {
    CarteNorm(Couleur, Valeur),
    Atout(Atout),
}

impl Valeur {
    /// Position of the rank in the order of its suit: 0 for the ace, 13 for the king.
    pub open spec fn ordre(self) -> int {
        match self {
            Valeur::As => 0,
            Valeur::Deux => 1,
            Valeur::Trois => 2,
            Valeur::Quatre => 3,
            Valeur::Cinq => 4,
            Valeur::Six => 5,
            Valeur::Sept => 6,
            Valeur::Huit => 7,
            Valeur::Neuf => 8,
            Valeur::Dix => 9,
            Valeur::Valet => 10,
            Valeur::Cavalier => 11,
            Valeur::Dame => 12,
            Valeur::Roi => 13,
        }
    }

    /// The rank that stands at position `n`; the king for any `n` past 12.
    pub open spec fn de_ordre(n: int) -> Valeur {
        if n <= 0 {
            Valeur::As
        } else if n == 1 {
            Valeur::Deux
        } else if n == 2 {
            Valeur::Trois
        } else if n == 3 {
            Valeur::Quatre
        } else if n == 4 {
            Valeur::Cinq
        } else if n == 5 {
            Valeur::Six
        } else if n == 6 {
            Valeur::Sept
        } else if n == 7 {
            Valeur::Huit
        } else if n == 8 {
            Valeur::Neuf
        } else if n == 9 {
            Valeur::Dix
        } else if n == 10 {
            Valeur::Valet
        } else if n == 11 {
            Valeur::Cavalier
        } else if n == 12 {
            Valeur::Dame
        } else {
            Valeur::Roi
        }
    }

    /// Position of the rank in the order of its suit.
    pub fn rang(&self) -> (r: u8)
        ensures
            r == self.ordre(),
            r <= 13,
    {
        match self {
            Valeur::As => 0,
            Valeur::Deux => 1,
            Valeur::Trois => 2,
            Valeur::Quatre => 3,
            Valeur::Cinq => 4,
            Valeur::Six => 5,
            Valeur::Sept => 6,
            Valeur::Huit => 7,
            Valeur::Neuf => 8,
            Valeur::Dix => 9,
            Valeur::Valet => 10,
            Valeur::Cavalier => 11,
            Valeur::Dame => 12,
            Valeur::Roi => 13,
        }
    }

    /// The rank at position `n`, for `n` from 0 (the ace) to 13 (the king).
    pub fn de_rang(n: u8) -> (v: Valeur)
        requires
            n <= 13,
        ensures
            v == Valeur::de_ordre(n as int),
            v.ordre() == n,
    {
        if n == 0 {
            Valeur::As
        } else if n == 1 {
            Valeur::Deux
        } else if n == 2 {
            Valeur::Trois
        } else if n == 3 {
            Valeur::Quatre
        } else if n == 4 {
            Valeur::Cinq
        } else if n == 5 {
            Valeur::Six
        } else if n == 6 {
            Valeur::Sept
        } else if n == 7 {
            Valeur::Huit
        } else if n == 8 {
            Valeur::Neuf
        } else if n == 9 {
            Valeur::Dix
        } else if n == 10 {
            Valeur::Valet
        } else if n == 11 {
            Valeur::Cavalier
        } else if n == 12 {
            Valeur::Dame
        } else {
            Valeur::Roi
        }
    }
}

impl Atout {
    /// Position of the trump in the order of trumps: 0 for the Excuse, then
    /// the number that the trump bears.
    pub open spec fn ordre(self) -> int {
        match self {
            Atout::Excuse => 0,
            Atout::Un => 1,
            Atout::Deux => 2,
            Atout::Trois => 3,
            Atout::Quatre => 4,
            Atout::Cinq => 5,
            Atout::Six => 6,
            Atout::Sept => 7,
            Atout::Huit => 8,
            Atout::Neuf => 9,
            Atout::Dix => 10,
            Atout::Onze => 11,
            Atout::Douze => 12,
            Atout::Treize => 13,
            Atout::Quatorze => 14,
            Atout::Quinze => 15,
            Atout::Seize => 16,
            Atout::DixSept => 17,
            Atout::Dixhuit => 18,
            Atout::Dixneuf => 19,
            Atout::Vingt => 20,
            Atout::VingEtUn => 21,
        }
    }

    /// The trump that stands at position `n`; the 21 for any `n` past 20.
    pub open spec fn de_ordre(n: int) -> Atout {
        if n <= 0 {
            Atout::Excuse
        } else if n == 1 {
            Atout::Un
        } else if n == 2 {
            Atout::Deux
        } else if n == 3 {
            Atout::Trois
        } else if n == 4 {
            Atout::Quatre
        } else if n == 5 {
            Atout::Cinq
        } else if n == 6 {
            Atout::Six
        } else if n == 7 {
            Atout::Sept
        } else if n == 8 {
            Atout::Huit
        } else if n == 9 {
            Atout::Neuf
        } else if n == 10 {
            Atout::Dix
        } else if n == 11 {
            Atout::Onze
        } else if n == 12 {
            Atout::Douze
        } else if n == 13 {
            Atout::Treize
        } else if n == 14 {
            Atout::Quatorze
        } else if n == 15 {
            Atout::Quinze
        } else if n == 16 {
            Atout::Seize
        } else if n == 17 {
            Atout::DixSept
        } else if n == 18 {
            Atout::Dixhuit
        } else if n == 19 {
            Atout::Dixneuf
        } else if n == 20 {
            Atout::Vingt
        } else {
            Atout::VingEtUn
        }
    }

    /// Position of the trump in the order of trumps.
    pub fn rang(&self) -> (r: u8)
        ensures
            r == self.ordre(),
            r <= 21,
    {
        match self {
            Atout::Excuse => 0,
            Atout::Un => 1,
            Atout::Deux => 2,
            Atout::Trois => 3,
            Atout::Quatre => 4,
            Atout::Cinq => 5,
            Atout::Six => 6,
            Atout::Sept => 7,
            Atout::Huit => 8,
            Atout::Neuf => 9,
            Atout::Dix => 10,
            Atout::Onze => 11,
            Atout::Douze => 12,
            Atout::Treize => 13,
            Atout::Quatorze => 14,
            Atout::Quinze => 15,
            Atout::Seize => 16,
            Atout::DixSept => 17,
            Atout::Dixhuit => 18,
            Atout::Dixneuf => 19,
            Atout::Vingt => 20,
            Atout::VingEtUn => 21,
        }
    }

    /// The trump at position `n`, for `n` from 0 (the Excuse) to 21.
    pub fn de_rang(n: u8) -> (a: Atout)
        requires
            n <= 21,
        ensures
            a == Atout::de_ordre(n as int),
            a.ordre() == n,
    {
        if n == 0 {
            Atout::Excuse
        } else if n == 1 {
            Atout::Un
        } else if n == 2 {
            Atout::Deux
        } else if n == 3 {
            Atout::Trois
        } else if n == 4 {
            Atout::Quatre
        } else if n == 5 {
            Atout::Cinq
        } else if n == 6 {
            Atout::Six
        } else if n == 7 {
            Atout::Sept
        } else if n == 8 {
            Atout::Huit
        } else if n == 9 {
            Atout::Neuf
        } else if n == 10 {
            Atout::Dix
        } else if n == 11 {
            Atout::Onze
        } else if n == 12 {
            Atout::Douze
        } else if n == 13 {
            Atout::Treize
        } else if n == 14 {
            Atout::Quatorze
        } else if n == 15 {
            Atout::Quinze
        } else if n == 16 {
            Atout::Seize
        } else if n == 17 {
            Atout::DixSept
        } else if n == 18 {
            Atout::Dixhuit
        } else if n == 19 {
            Atout::Dixneuf
        } else if n == 20 {
            Atout::Vingt
        } else {
            Atout::VingEtUn
        }
    }
}

/// Whether `a` beats `b` in a trick where `appelee` is the suit to follow.
///
/// A trump beats any suited card, and the higher of two trumps beats the
/// other. Of two cards of one suit the higher rank wins. Of two suited cards
/// of different suits, `a` wins exactly when it is of the suit to follow.
pub open spec fn bat(a: Carte, b: Carte, appelee: Couleur) -> bool {
    match a {
        Carte::CarteNorm(coul, val) => match b {
            Carte::Atout(_) => false,
            Carte::CarteNorm(coul_autre, val_autre) => if coul == coul_autre {
                val.ordre() > val_autre.ordre()
            } else {
                appelee == coul
            },
        },
        Carte::Atout(at) => match b {
            Carte::CarteNorm(_, _) => true,
            Carte::Atout(autre_at) => at.ordre() > autre_at.ordre(),
        },
    }
}

impl Carte {
    /// Whether this card beats `autre` in a trick where `appelee` is the suit
    /// to follow. The two cards are different cards: a deck holds each card once.
    pub fn plus_forte_que(&self, autre: &Carte, appelee: Couleur) -> (r: bool)
        requires
            *self != *autre,
        ensures
            r == bat(*self, *autre, appelee),
    {
        match self {
            Carte::CarteNorm(coul, val) => match autre {
                Carte::Atout(_) => false,
                Carte::CarteNorm(coul_autre, val_autre) => {
                    if *coul == *coul_autre {
                        val.rang() > val_autre.rang()
                    } else {
                        appelee == *coul
                    }
                },
            },
            Carte::Atout(at) => match autre {
                Carte::CarteNorm(_, _) => true,
                Carte::Atout(autre_at) => at.rang() > autre_at.rang(),
            },
        }
    }
}

/// The order of ranks and the order of trumps tell any two of them apart.
pub proof fn lemma_ordre_injectif()
    ensures
        forall|v: Valeur, w: Valeur| v.ordre() == w.ordre() ==> v == w,
        forall|a: Atout, b: Atout| a.ordre() == b.ordre() ==> a == b,
        forall|v: Valeur| 0 <= #[trigger] v.ordre() <= 13 && Valeur::de_ordre(v.ordre()) == v,
        forall|a: Atout| 0 <= #[trigger] a.ordre() <= 21 && Atout::de_ordre(a.ordre()) == a,
{
}

/// No card beats itself, and of two cards at most one beats the other.
pub proof fn lemma_bat_strict(a: Carte, b: Carte, appelee: Couleur)
    ensures
        !bat(a, a, appelee),
        !(bat(a, b, appelee) && bat(b, a, appelee)),
{
}

} // verus!
