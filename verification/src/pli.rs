//! The trick: who takes it, and where its cards go.

use vstd::prelude::*;
use crate::carte::{bat, lemma_ordre_injectif, Carte, Couleur};
use crate::coup::{couleur_demandee, couleur_ouverture};
use crate::joueur::{Joueur, VueJoueur};

verus! {

/// The cards on the table, each with the player who put it down, in the
/// order of play.
pub type Table<'a> = &'a [(Joueur<'a>, Carte)];

/// The cards of a table, in the order of play.
pub open spec fn cartes_de<'a>(table: Seq<(Joueur<'a>, Carte)>) -> Seq<Carte> {
    Seq::new(table.len(), |i: int| table[i].1)
}

/// The suit by which the cards of a trick are compared: the suit it opened
/// with, or diamonds where it opened with a trump (no comparison then reads it).
pub open spec fn couleur_retenue(cartes: Seq<Carte>) -> Couleur {
    match couleur_ouverture(cartes) {
        Some(coul) => coul,
        None => Couleur::Carreau,
    }
}

/// The place of the card that holds the trick once the first `n` cards are
/// down: the first card, replaced by each later card that beats the holder.
pub open spec fn meilleur(cartes: Seq<Carte>, n: int) -> int
    decreases n,
{
    if n <= 1 {
        0
    } else {
        let avant = meilleur(cartes, n - 1);
        if bat(cartes[n - 1], cartes[avant], couleur_retenue(cartes)) {
            n - 1
        } else {
            avant
        }
    }
}

/// The place of the card that takes the trick.
pub open spec fn indice_gagnant(cartes: Seq<Carte>) -> int {
    meilleur(cartes, cartes.len() as int)
}

/// Whether the card at place `g` beats every other card of the trick.
pub open spec fn domine(cartes: Seq<Carte>, g: int) -> bool {
    &&& 0 <= g < cartes.len()
    &&& forall|j: int|
        0 <= j < cartes.len() && j != g ==> bat(cartes[g], #[trigger] cartes[j], couleur_retenue(cartes))
}

/// Whether a card can hold a trick: a trump, or a card of the suit that the
/// trick opened with.
pub open spec fn maitre(cartes: Seq<Carte>, carte: Carte) -> bool {
    match carte {
        Carte::Atout(_) => true,
        Carte::CarteNorm(coul, _) => couleur_ouverture(cartes) == Some(coul),
    }
}

/// Among the first `n` cards of a trick of different cards, the holder beats
/// each of the others.
pub proof fn lemma_meilleur(cartes: Seq<Carte>, n: int)
    requires
        1 <= n <= cartes.len(),
        cartes.no_duplicates(),
    ensures
        0 <= meilleur(cartes, n) < n,
        maitre(cartes, cartes[meilleur(cartes, n)]),
        forall|j: int|
            0 <= j < n && j != meilleur(cartes, n) ==> bat(
                cartes[meilleur(cartes, n)],
                #[trigger] cartes[j],
                couleur_retenue(cartes),
            ),
    decreases n,
{
    lemma_ordre_injectif();
    if n > 1 {
        lemma_meilleur(cartes, n - 1);
        let avant = meilleur(cartes, n - 1);
        let g = meilleur(cartes, n);
        assert(cartes[n - 1] != cartes[avant]);
        assert forall|j: int| 0 <= j < n && j != g implies bat(
            cartes[g],
            #[trigger] cartes[j],
            couleur_retenue(cartes),
        ) by {
            if j != avant && j != n - 1 {
                assert(bat(cartes[avant], cartes[j], couleur_retenue(cartes)));
            }
        }
    }
}

/// A trick of different cards has one winner: the card at the winning place
/// beats every other card, and no other place holds such a card.
pub proof fn lemma_un_seul_gagnant(cartes: Seq<Carte>)
    requires
        cartes.len() > 0,
        cartes.no_duplicates(),
    ensures
        domine(cartes, indice_gagnant(cartes)),
        forall|g: int| domine(cartes, g) ==> g == indice_gagnant(cartes),
{
    lemma_meilleur(cartes, cartes.len() as int);
    let w = indice_gagnant(cartes);
    assert forall|g: int| domine(cartes, g) implies g == w by {
        if g != w {
            assert(bat(cartes[g], cartes[w], couleur_retenue(cartes)));
            assert(bat(cartes[w], cartes[g], couleur_retenue(cartes)));
        }
    }
}

/// In a trick of suited cards only, the winner is the highest card of the
/// suit that the trick opened with, whatever the ranks of the other suits.
pub proof fn lemma_gagnant_sans_atout(cartes: Seq<Carte>)
    requires
        cartes.len() > 0,
        cartes.no_duplicates(),
        forall|i: int| 0 <= i < cartes.len() ==> #[trigger] cartes[i] is CarteNorm,
    ensures
        cartes[indice_gagnant(cartes)] matches Carte::CarteNorm(coul, val) && Some(coul)
            == couleur_ouverture(cartes) && forall|j: int|
            0 <= j < cartes.len() ==> (#[trigger] cartes[j] matches Carte::CarteNorm(c, v) ==> c
                == coul ==> v.ordre() <= val.ordre()),
{
    lemma_meilleur(cartes, cartes.len() as int);
    let w = indice_gagnant(cartes);
    assert(cartes[w] is CarteNorm);
    assert(cartes[0] is CarteNorm);
    assert forall|j: int| 0 <= j < cartes.len() && j != w implies bat(
        cartes[w],
        #[trigger] cartes[j],
        couleur_retenue(cartes),
    ) by {}
}

/// The cards of the table, in the order of play.
pub fn cartes_du_pli<'a>(table: Table<'a>) -> (cartes: Vec<Carte>)
    ensures
        cartes@ == cartes_de(table@),
{
    let mut cartes: Vec<Carte> = Vec::new();
    let mut i: usize = 0;
    while i < table.len()
        invariant
            i <= table.len(),
            cartes.len() == i,
            forall|k: int| 0 <= k < i ==> cartes@[k] == table@[k].1,
        decreases table.len() - i,
    {
        cartes.push(table[i].1);
        i += 1;
    }
    assert(cartes@ =~= cartes_de(table@));
    cartes
}

/// The place of the card that takes a trick of different cards: the card
/// that beats every other card of the trick.
pub fn indice_du_gagnant(cartes: &[Carte]) -> (g: usize)
    requires
        cartes.len() > 0,
        cartes@.no_duplicates(),
    ensures
        g == indice_gagnant(cartes@),
        domine(cartes@, g as int),
{
    let appelee = match couleur_demandee(cartes) {
        Some(coul) => coul,
        None => Couleur::Carreau,
    };
    let mut g: usize = 0;
    let mut i: usize = 1;
    while i < cartes.len()
        invariant
            1 <= i <= cartes.len(),
            g < i,
            g == meilleur(cartes@, i as int),
            appelee == couleur_retenue(cartes@),
            cartes@.no_duplicates(),
        decreases cartes.len() - i,
    {
        if cartes[i].plus_forte_que(&cartes[g], appelee) {
            g = i;
        }
        i += 1;
    }
    proof {
        lemma_un_seul_gagnant(cartes@);
    }
    g
}

/// The player who takes the trick: the one whose card beats every other card
/// on the table. The table holds at least one card and no card twice.
pub fn gagnant_de_tour<'a>(table: Table<'a>) -> (r: Joueur<'a>)
    requires
        table.len() > 0,
        cartes_de(table@).no_duplicates(),
    ensures
        r@ == table@[indice_gagnant(cartes_de(table@))].0@,
        r.pseudo == table@[indice_gagnant(cartes_de(table@))].0.pseudo,
        domine(cartes_de(table@), indice_gagnant(cartes_de(table@))),
{
    let cartes = cartes_du_pli(table);
    let g = indice_du_gagnant(cartes.as_slice());
    table[g].0.clone()
}

/// Puts the cards of the table, in the order of play, behind the cards that
/// the winner of the trick has already taken.
pub fn range_pli<'a>(gagnant_tour: &mut Joueur<'a>, table: Table<'a>)
    ensures
        final(gagnant_tour)@ == (VueJoueur {
            plis: old(gagnant_tour)@.plis + cartes_de(table@),
            ..old(gagnant_tour)@
        }),
        final(gagnant_tour).pseudo == old(gagnant_tour).pseudo,
{
    let mut i: usize = 0;
    while i < table.len()
        invariant
            i <= table.len(),
            gagnant_tour.pseudo == old(gagnant_tour).pseudo,
            gagnant_tour@ == (VueJoueur {
                plis: old(gagnant_tour)@.plis + cartes_de(table@).take(i as int),
                ..old(gagnant_tour)@
            }),
        decreases table.len() - i,
    {
        gagnant_tour.plis.push(table[i].1);
        assert(cartes_de(table@).take(i + 1) == cartes_de(table@).take(i as int).push(
            table@[i as int].1,
        ));
        assert(gagnant_tour@.plis == old(gagnant_tour)@.plis + cartes_de(table@).take(i + 1));
        i += 1;
    }
    assert(cartes_de(table@).take(i as int) == cartes_de(table@));
}

} // verus!
