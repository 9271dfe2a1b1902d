//! Rules of a French Tarot trick: the deck, which card beats which, the cards
//! a player may put down, who takes a trick, and the deal.

pub mod carte;
pub mod coup;
pub mod jeu;
pub mod joueur;
pub mod pli;
pub mod donne;
