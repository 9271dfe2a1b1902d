//! The players of a deal and what is set up before the first trick.

use vstd::prelude::*;
use crate::carte::Carte;

verus! {

/// The side that a player is on for one deal.
#[derive(Clone, Copy, Debug, PartialEq, Eq, Structural)]
pub enum Equipe {
    Attaque,
    Defense,
}

/// A player: a name, a side, the hand, and the cards of the tricks taken.
#[derive(Debug, PartialEq, Eq)]
pub struct Joueur<'a> {
    pub pseudo: &'a str,
    pub equipe: Equipe,
    pub main: Vec<Carte>,
    pub plis: Vec<Carte>,
}

/// What a player is to the rules: the name as characters, the side, and the
/// hand and the cards taken as sequences.
pub struct VueJoueur {
    pub pseudo: Seq<char>,
    pub equipe: Equipe,
    pub main: Seq<Carte>,
    pub plis: Seq<Carte>,
}

impl<'a> View for Joueur<'a> {
    type V = VueJoueur;

    open spec fn view(&self) -> VueJoueur {
        VueJoueur {
            pseudo: self.pseudo@,
            equipe: self.equipe,
            main: self.main@,
            plis: self.plis@,
        }
    }
}

impl<'a> Clone for Joueur<'a> {
    /// A copy of the player, with the same name, side, hand and tricks.
    fn clone(&self) -> (r: Self)
        ensures
            r@ == self@,
            r.pseudo == self.pseudo,
    {
        Joueur {
            pseudo: self.pseudo,
            equipe: self.equipe,
            main: self.main.clone(),
            plis: self.plis.clone(),
        }
    }
}

impl<'a> Joueur<'a> {
    /// A player with a name and a side, who holds no card and has taken no trick.
    pub fn creer(nom: &'a str, eq: Equipe) -> (r: Joueur<'a>)
        ensures
            r.pseudo == nom,
            r@ == (VueJoueur {
                pseudo: nom@,
                equipe: eq,
                main: Seq::<Carte>::empty(),
                plis: Seq::<Carte>::empty(),
            }),
    {
        Joueur { pseudo: nom, equipe: eq, main: Vec::new(), plis: Vec::new() }
    }
}

/// How much a player commits to, from the lowest bid to the highest.
#[derive(Clone, Copy, Debug, PartialEq, Eq, Structural, PartialOrd, Ord)]
pub enum Mise {
    Petite,
    Pousse,
    Garde,
    GardeSans,
    GardeContre,
    Chelem,
}

/// What a deal starts from: the players, the dog (the cards set aside, which
/// no player holds) and the lowest bid that is accepted.
pub struct PrePartie<'a> {
    pub joueurs: Vec<Joueur<'a>>,
    pub chien: Vec<Carte>,
    pub mise_mini: Mise,
}

/// What a deal's setup is to the rules: the players as the rules see them,
/// the dog as a sequence, and the lowest bid.
pub struct VuePrePartie {
    pub joueurs: Seq<VueJoueur>,
    pub chien: Seq<Carte>,
    pub mise_mini: Mise,
}

impl<'a> View for PrePartie<'a> {
    type V = VuePrePartie;

    open spec fn view(&self) -> VuePrePartie {
        VuePrePartie {
            joueurs: Seq::new(self.joueurs.len() as nat, |j: int| self.joueurs[j]@),
            chien: self.chien@,
            mise_mini: self.mise_mini,
        }
    }
}

} // verus!
