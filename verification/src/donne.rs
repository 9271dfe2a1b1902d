//! The deal: the dog is set aside and the rest of the shuffled deck goes to
//! the players, three cards at a time.

use vstd::prelude::*;
use vstd::multiset::Multiset;
use vstd::seq_lib::lemma_multiset_commutative;
use rand::seq::SliceRandom;
use crate::carte::Carte;
use crate::jeu::{creer_jeu, jeu_complet, lemma_jeu_complet};
use crate::joueur::{PrePartie, VueJoueur, VuePrePartie};

verus! {

/// The number of cards of the dog: three in a game of five players, six in
/// any other.
pub open spec fn taille_chien(nb_joueurs: int) -> int {
    if nb_joueurs == 5 {
        3
    } else {
        6
    }
}

/// Why a deck cannot be dealt.
#[derive(Clone, Copy, Debug, PartialEq, Eq, Structural)]
pub enum ErreurDonne {
    /// There is no player to deal to.
    SansJoueur,
    /// The deck is too small for the dog.
    JeuInsuffisant,
    /// Past the dog, the deck does not come out in rounds of three cards a player.
    PartageInegal,
}

/// What stops the deal of `nb_cartes` cards to `nb_joueurs` players, if
/// anything does.
pub open spec fn erreur_de_donne(nb_joueurs: int, nb_cartes: int) -> Option<ErreurDonne> {
    if nb_joueurs <= 0 {
        Some(ErreurDonne::SansJoueur)
    } else if nb_cartes < taille_chien(nb_joueurs) {
        Some(ErreurDonne::JeuInsuffisant)
    } else if (nb_cartes - taille_chien(nb_joueurs)) % (3 * nb_joueurs) != 0 {
        Some(ErreurDonne::PartageInegal)
    } else {
        None
    }
}

/// The number of rounds of the deal, each of which hands every player three cards.
pub open spec fn nombre_de_tours(nb_joueurs: int, nb_cartes: int) -> int {
    (nb_cartes - taille_chien(nb_joueurs)) / (3 * nb_joueurs)
}

/// The cards that player `j` of `nb_joueurs` has been handed after `tours`
/// rounds, in the order in which they came: in each round the three cards
/// that follow those of the players before.
pub open spec fn main_partielle(jeu: Seq<Carte>, nb_joueurs: int, j: int, tours: int) -> Seq<
    Carte,
> {
    Seq::new(
        (3 * tours) as nat,
        |k: int| jeu[taille_chien(nb_joueurs) + 3 * ((k / 3) * nb_joueurs + j) + k % 3],
    )
}

/// The cards that the deal of `jeu` hands to player `j` of `nb_joueurs`.
pub open spec fn main_donnee(jeu: Seq<Carte>, nb_joueurs: int, j: int) -> Seq<Carte> {
    main_partielle(jeu, nb_joueurs, j, nombre_de_tours(nb_joueurs, jeu.len() as int))
}

/// The cards that each of the players has been handed after `tours` rounds.
pub open spec fn mains_partielles(jeu: Seq<Carte>, nb_joueurs: int, tours: int) -> Seq<
    Seq<Carte>,
> {
    Seq::new(nb_joueurs as nat, |j: int| main_partielle(jeu, nb_joueurs, j, tours))
}

/// The cards that the deal of `jeu` hands to each of the players.
pub open spec fn mains_donnees(jeu: Seq<Carte>, nb_joueurs: int) -> Seq<Seq<Carte>> {
    mains_partielles(jeu, nb_joueurs, nombre_de_tours(nb_joueurs, jeu.len() as int))
}

/// The dog that the deal of `jeu` sets aside: the first cards of the deck.
pub open spec fn chien_donne(jeu: Seq<Carte>, nb_joueurs: int) -> Seq<Carte> {
    jeu.take(taille_chien(nb_joueurs))
}

/// The cards of several hands taken together, each as often as the hands hold it.
pub open spec fn reunion(mains: Seq<Seq<Carte>>) -> Multiset<Carte>
    decreases mains.len(),
{
    if mains.len() == 0 {
        Multiset::empty()
    } else {
        reunion(mains.drop_last()).add(mains.last().to_multiset())
    }
}

/// Hands that each grow by some cards hold together what they held and what
/// they grew by.
pub proof fn lemma_reunion_ajout(a: Seq<Seq<Carte>>, b: Seq<Seq<Carte>>)
    requires
        a.len() == b.len(),
    ensures
        reunion(Seq::new(a.len(), |j: int| a[j] + b[j])) == reunion(a).add(reunion(b)),
    decreases a.len(),
{
    let c = Seq::new(a.len(), |j: int| a[j] + b[j]);
    if a.len() > 0 {
        let a0 = a.drop_last();
        let b0 = b.drop_last();
        lemma_reunion_ajout(a0, b0);
        assert(c.drop_last() =~= Seq::new(a0.len(), |j: int| a0[j] + b0[j]));
        lemma_multiset_commutative(a.last(), b.last());
        assert(c.last() == a.last() + b.last());
        assert(reunion(c) =~= reunion(a).add(reunion(b)));
    } else {
        assert(reunion(c) =~= reunion(a).add(reunion(b)));
    }
}

/// Cutting a stretch of the deck into lots of three cards loses and adds nothing.
pub proof fn lemma_reunion_lots(jeu: Seq<Carte>, debut: int, n: int)
    requires
        0 <= debut,
        0 <= n,
        debut + 3 * n <= jeu.len(),
    ensures
        reunion(Seq::new(n as nat, |j: int| jeu.subrange(debut + 3 * j, debut + 3 * j + 3)))
            == jeu.subrange(debut, debut + 3 * n).to_multiset(),
    decreases n,
{
    let lots = Seq::new(n as nat, |j: int| jeu.subrange(debut + 3 * j, debut + 3 * j + 3));
    if n > 0 {
        lemma_reunion_lots(jeu, debut, n - 1);
        let avant = Seq::new(
            (n - 1) as nat,
            |j: int| jeu.subrange(debut + 3 * j, debut + 3 * j + 3),
        );
        assert(lots.drop_last() =~= avant);
        let tete = jeu.subrange(debut, debut + 3 * (n - 1));
        assert(lots.last() == jeu.subrange(debut + 3 * (n - 1), debut + 3 * n));
        lemma_multiset_commutative(tete, lots.last());
        assert(tete + lots.last() =~= jeu.subrange(debut, debut + 3 * n));
    } else {
        assert(jeu.subrange(debut, debut) =~= Seq::<Carte>::empty());
        broadcast use vstd::seq_lib::group_to_multiset_ensures;
        assert(Seq::<Carte>::empty().to_multiset() =~= Multiset::<Carte>::empty());
    }
}

/// After any number of rounds, the dog and the hands hold together the cards
/// dealt so far, each as often as the deck holds it among them.
pub proof fn lemma_tours_complets(jeu: Seq<Carte>, nb_joueurs: int, tours: int)
    requires
        nb_joueurs > 0,
        tours >= 0,
        taille_chien(nb_joueurs) + 3 * nb_joueurs * tours <= jeu.len(),
    ensures
        chien_donne(jeu, nb_joueurs).to_multiset().add(
            reunion(mains_partielles(jeu, nb_joueurs, tours)),
        ) == jeu.take(taille_chien(nb_joueurs) + 3 * nb_joueurs * tours).to_multiset(),
    decreases tours,
{
    let chien = taille_chien(nb_joueurs);
    let mains = mains_partielles(jeu, nb_joueurs, tours);
    if tours == 0 {
        lemma_reunion_vide(mains);
        assert(3 * nb_joueurs * tours == 0) by (nonlinear_arith)
            requires
                tours == 0,
        ;
        assert(chien_donne(jeu, nb_joueurs).to_multiset().add(reunion(mains)) =~= jeu.take(
            chien,
        ).to_multiset());
    } else {
        let debut = chien + 3 * nb_joueurs * (tours - 1);
        let fin = chien + 3 * nb_joueurs * tours;
        assert(fin == debut + 3 * nb_joueurs && debut >= chien) by (nonlinear_arith)
            requires
                debut == chien + 3 * nb_joueurs * (tours - 1),
                fin == chien + 3 * nb_joueurs * tours,
                nb_joueurs > 0,
                tours >= 1,
        ;
        lemma_tours_complets(jeu, nb_joueurs, tours - 1);
        let avant = mains_partielles(jeu, nb_joueurs, tours - 1);
        let lots = Seq::new(
            nb_joueurs as nat,
            |j: int| jeu.subrange(debut + 3 * j, debut + 3 * j + 3),
        );
        assert forall|j: int| 0 <= j < nb_joueurs implies #[trigger] mains[j] == avant[j]
            + lots[j] by {
            let tout = main_partielle(jeu, nb_joueurs, j, tours);
            let vieux = main_partielle(jeu, nb_joueurs, j, tours - 1);
            assert(debut + 3 * j == chien + 3 * ((tours - 1) * nb_joueurs + j))
                by (nonlinear_arith)
                requires
                    debut == chien + 3 * nb_joueurs * (tours - 1),
            ;
            assert forall|k: int| 0 <= k < tout.len() implies tout[k] == (vieux + lots[j])[k] by {
                if k >= 3 * (tours - 1) {
                    assert(k / 3 == tours - 1);
                }
            }
            assert(tout =~= vieux + lots[j]);
        }
        assert(mains =~= Seq::new(avant.len(), |j: int| avant[j] + lots[j]));
        lemma_reunion_ajout(avant, lots);
        lemma_reunion_lots(jeu, debut, nb_joueurs);
        lemma_multiset_commutative(jeu.take(debut), jeu.subrange(debut, fin));
        assert(jeu.take(debut) + jeu.subrange(debut, fin) =~= jeu.take(fin));
        assert(chien_donne(jeu, nb_joueurs).to_multiset().add(reunion(mains)) =~= jeu.take(
            fin,
        ).to_multiset());
    }
}

/// Hands that are all empty hold no card together.
pub proof fn lemma_reunion_vide(mains: Seq<Seq<Carte>>)
    requires
        forall|j: int| 0 <= j < mains.len() ==> (#[trigger] mains[j]).len() == 0,
    ensures
        reunion(mains) == Multiset::<Carte>::empty(),
    decreases mains.len(),
{
    if mains.len() > 0 {
        lemma_reunion_vide(mains.drop_last());
        broadcast use vstd::seq_lib::group_to_multiset_ensures;
        assert(mains.last().len() == 0);
        assert(mains.last() =~= Seq::<Carte>::empty());
        assert(reunion(mains) =~= Multiset::<Carte>::empty());
    }
}

/// A deal loses and adds no card: the dog and the hands hold together the
/// cards of the deck, each as often as the deck holds it, and every player is
/// handed the same number of cards.
pub proof fn lemma_donne_complete(jeu: Seq<Carte>, nb_joueurs: int)
    requires
        erreur_de_donne(nb_joueurs, jeu.len() as int) is None,
    ensures
        chien_donne(jeu, nb_joueurs).to_multiset().add(reunion(mains_donnees(jeu, nb_joueurs)))
            == jeu.to_multiset(),
        forall|j: int|
            0 <= j < nb_joueurs ==> (#[trigger] main_donnee(jeu, nb_joueurs, j)).len() == 3
                * nombre_de_tours(nb_joueurs, jeu.len() as int),
        taille_chien(nb_joueurs) + nb_joueurs * (3 * nombre_de_tours(
            nb_joueurs,
            jeu.len() as int,
        )) == jeu.len(),
{
    let chien = taille_chien(nb_joueurs);
    let reste = jeu.len() - chien;
    let tours = nombre_de_tours(nb_joueurs, jeu.len() as int);
    vstd::arithmetic::div_mod::lemma_fundamental_div_mod(reste, 3 * nb_joueurs);
    vstd::arithmetic::div_mod::lemma_div_pos_is_pos(reste, 3 * nb_joueurs);
    assert(reste == 3 * nb_joueurs * tours && reste == nb_joueurs * (3 * tours))
        by (nonlinear_arith)
        requires
            reste == (3 * nb_joueurs) * tours + 0,
    ;
    lemma_tours_complets(jeu, nb_joueurs, tours);
    assert(jeu.take(jeu.len() as int) =~= jeu);
}

/// The setup after the deal of `jeu`: the dog is the first cards of the deck,
/// and each player's hand has grown by the cards handed to that player.
pub open spec fn donner(avant: VuePrePartie, jeu: Seq<Carte>) -> VuePrePartie {
    VuePrePartie {
        joueurs: Seq::new(
            avant.joueurs.len(),
            |j: int|
                VueJoueur {
                    main: avant.joueurs[j].main + main_donnee(
                        jeu,
                        avant.joueurs.len() as int,
                        j,
                    ),
                    ..avant.joueurs[j]
                },
        ),
        chien: chien_donne(jeu, avant.joueurs.len() as int),
        mise_mini: avant.mise_mini,
    }
}

/// The players while a round is under way: those before `j` have their three
/// cards of round `tour`, the others not yet.
pub open spec fn en_cours(
    avant: Seq<VueJoueur>,
    jeu: Seq<Carte>,
    tour: int,
    j: int,
    joueurs: Seq<VueJoueur>,
) -> bool {
    &&& joueurs.len() == avant.len()
    &&& forall|i: int|
        0 <= i < avant.len() ==> #[trigger] joueurs[i] == (VueJoueur {
            main: avant[i].main + main_partielle(
                jeu,
                avant.len() as int,
                i,
                if i < j {
                    tour + 1
                } else {
                    tour
                },
            ),
            ..avant[i]
        })
}

/// Deals the deck `jeu` as it lies: its first cards become the dog, and the
/// rest goes to the players in rounds, three cards to each player in turn,
/// behind the cards that the player already holds.
///
/// Nothing is dealt, and the reason is returned, where there is no player,
/// where the deck is smaller than the dog, or where the cards past the dog do
/// not come out in whole rounds.
pub fn distribuer<'a>(prep: PrePartie<'a>, jeu: Vec<Carte>) -> (r: Result<
    PrePartie<'a>,
    ErreurDonne,
>)
    ensures
        match r {
            Ok(apres) => erreur_de_donne(prep.joueurs.len() as int, jeu.len() as int) is None
                && apres@ == donner(prep@, jeu@) && apres.joueurs.len() == prep.joueurs.len(),
            Err(e) => erreur_de_donne(prep.joueurs.len() as int, jeu.len() as int) == Some(e),
        },
{
    let ghost avant = prep@;
    let mut prep = prep;
    let nb_joueur = prep.joueurs.len();
    if nb_joueur == 0 {
        return Err(ErreurDonne::SansJoueur);
    }
    let nb_chien: usize = if nb_joueur == 5 {
        3
    } else {
        6
    };
    if jeu.len() < nb_chien {
        return Err(ErreurDonne::JeuInsuffisant);
    }
    let reste = jeu.len() - nb_chien;
    if reste > 0 && nb_joueur > reste / 3 {
        proof {
            vstd::arithmetic::div_mod::lemma_small_mod(reste as nat, (3 * nb_joueur) as nat);
        }
        return Err(ErreurDonne::PartageInegal);
    }
    let tours = if reste == 0 {
        0
    } else {
        if reste % (3 * nb_joueur) != 0 {
            return Err(ErreurDonne::PartageInegal);
        }
        reste / (3 * nb_joueur)
    };
    proof {
        if reste == 0 {
            vstd::arithmetic::div_mod::lemma_small_mod(0, (3 * nb_joueur) as nat);
            vstd::arithmetic::div_mod::lemma_div_basics(3 * nb_joueur as int);
        }
        vstd::arithmetic::div_mod::lemma_fundamental_div_mod(reste as int, 3 * nb_joueur as int);
        assert(reste == 3 * (nb_joueur * tours) && reste == 3 * (tours * nb_joueur))
            by (nonlinear_arith)
            requires
                reste == (3 * nb_joueur) * tours + 0,
        ;
    }
    let mut chien: Vec<Carte> = Vec::new();
    let mut x: usize = 0;
    while x < nb_chien
        invariant
            x <= nb_chien <= jeu.len(),
            chien@ == jeu@.take(x as int),
        decreases nb_chien - x,
    {
        chien.push(jeu[x]);
        assert(jeu@.take(x + 1) == jeu@.take(x as int).push(jeu@[x as int]));
        x += 1;
    }
    prep.chien = chien;
    let mut pos: usize = nb_chien;
    let mut tour: usize = 0;
    assert(en_cours(avant.joueurs, jeu@, 0, 0, prep@.joueurs)) by {
        assert forall|i: int| 0 <= i < avant.joueurs.len() implies avant.joueurs[i].main
            + main_partielle(jeu@, avant.joueurs.len() as int, i, 0) == avant.joueurs[i].main by {
            assert(avant.joueurs[i].main + main_partielle(
                jeu@,
                avant.joueurs.len() as int,
                i,
                0,
            ) =~= avant.joueurs[i].main);
        }
    }
    while tour < tours
        invariant
            tour <= tours,
            nb_joueur == avant.joueurs.len(),
            nb_joueur > 0,
            nb_chien == taille_chien(nb_joueur as int),
            jeu.len() == nb_chien + 3 * (tours * nb_joueur),
            pos == nb_chien + 3 * (tour * nb_joueur),
            prep.chien@ == jeu@.take(nb_chien as int),
            prep.mise_mini == avant.mise_mini,
            en_cours(avant.joueurs, jeu@, tour as int, 0, prep@.joueurs),
        decreases tours - tour,
    {
        let mut j: usize = 0;
        while j < nb_joueur
            invariant
                tour < tours,
                j <= nb_joueur,
                nb_joueur == avant.joueurs.len(),
                nb_joueur > 0,
                nb_chien == taille_chien(nb_joueur as int),
                jeu.len() == nb_chien + 3 * (tours * nb_joueur),
                pos == nb_chien + 3 * (tour * nb_joueur + j),
                prep.chien@ == jeu@.take(nb_chien as int),
                prep.mise_mini == avant.mise_mini,
                en_cours(avant.joueurs, jeu@, tour as int, j as int, prep@.joueurs),
            decreases nb_joueur - j,
        {
            assert(pos + 3 <= jeu.len()) by (nonlinear_arith)
                requires
                    pos == nb_chien + 3 * (tour * nb_joueur + j),
                    jeu.len() == nb_chien + 3 * (tours * nb_joueur),
                    tour < tours,
                    j < nb_joueur,
            ;
            let ghost vieux = prep@.joueurs;
            let carte1 = jeu[pos];
            let carte2 = jeu[pos + 1];
            let carte3 = jeu[pos + 2];
            prep.joueurs[j].main.push(carte1);
            prep.joueurs[j].main.push(carte2);
            prep.joueurs[j].main.push(carte3);
            proof {
                let nb = nb_joueur as int;
                let a = main_partielle(jeu@, nb, j as int, tour as int);
                let b = main_partielle(jeu@, nb, j as int, tour + 1);
                assert forall|k: int| 0 <= k < b.len() implies b[k] == a.push(carte1).push(
                    carte2,
                ).push(carte3)[k] by {
                    if k >= 3 * tour {
                        assert(k / 3 == tour);
                    }
                }
                assert(b =~= a.push(carte1).push(carte2).push(carte3));
                assert(vieux[j as int].main == avant.joueurs[j as int].main + a);
                assert(prep.joueurs[j as int]@.main == vieux[j as int].main.push(carte1).push(
                    carte2,
                ).push(carte3));
                assert(prep@.joueurs[j as int].main =~= avant.joueurs[j as int].main + b);
                assert forall|i: int| 0 <= i < nb && i != j implies prep@.joueurs[i]
                    == vieux[i] by {}
                assert(prep@.joueurs[j as int] == (VueJoueur {
                    main: avant.joueurs[j as int].main + b,
                    ..avant.joueurs[j as int]
                }));
                assert(prep@.joueurs.len() == nb);
                assert forall|i: int| 0 <= i < nb implies #[trigger] prep@.joueurs[i]
                    == (VueJoueur {
                    main: avant.joueurs[i].main + main_partielle(
                        jeu@,
                        nb,
                        i,
                        if i < j + 1 {
                            tour + 1
                        } else {
                            tour as int
                        },
                    ),
                    ..avant.joueurs[i]
                }) by {
                    if i != j {
                        assert(prep@.joueurs[i] == vieux[i]);
                    }
                }
            }
            pos += 3;
            j += 1;
        }
        proof {
            assert(pos == nb_chien + 3 * ((tour + 1) * nb_joueur)) by (nonlinear_arith)
                requires
                    pos == nb_chien + 3 * (tour * nb_joueur + nb_joueur),
            ;
        }
        tour += 1;
    }
    proof {
        assert(tours == nombre_de_tours(nb_joueur as int, jeu.len() as int)) by {
            vstd::arithmetic::div_mod::lemma_fundamental_div_mod_converse(
                reste as int,
                3 * nb_joueur as int,
                tours as int,
                0,
            );
        }
        assert(prep@.joueurs =~= donner(avant, jeu@).joueurs);
    }
    Ok(prep)
}

/// Whether `jeu` is the deck in some order: it holds every card once.
pub open spec fn est_melange(jeu: Seq<Carte>) -> bool {
    jeu.to_multiset() == jeu_complet().to_multiset()
}

/// The cards that each player has been handed between two states of a setup:
/// what stands in the hand behind the cards that it held before.
pub open spec fn mains_recues(avant: VuePrePartie, apres: VuePrePartie) -> Seq<Seq<Carte>> {
    Seq::new(
        avant.joueurs.len(),
        |j: int| apres.joueurs[j].main.skip(avant.joueurs[j].main.len() as int),
    )
}

/// The deal of the shuffled deck puts each of the seventy-eight cards in the
/// dog or in what one player is handed, and in one place only; every player
/// is handed the same number of cards.
pub proof fn lemma_donne_du_jeu(avant: VuePrePartie, jeu: Seq<Carte>)
    requires
        est_melange(jeu),
        erreur_de_donne(avant.joueurs.len() as int, 78) is None,
    ensures
        jeu.len() == 78,
        mains_recues(avant, donner(avant, jeu)) == mains_donnees(jeu, avant.joueurs.len() as int),
        donner(avant, jeu).chien.to_multiset().add(
            reunion(mains_recues(avant, donner(avant, jeu))),
        ) == jeu_complet().to_multiset(),
        forall|carte: Carte|
            donner(avant, jeu).chien.to_multiset().add(
                reunion(mains_recues(avant, donner(avant, jeu))),
            ).count(carte) == 1,
        forall|j: int|
            0 <= j < avant.joueurs.len() ==> (#[trigger] mains_recues(
                avant,
                donner(avant, jeu),
            )[j]).len() == 3 * nombre_de_tours(avant.joueurs.len() as int, 78),
{
    let nb = avant.joueurs.len() as int;
    let apres = donner(avant, jeu);
    broadcast use vstd::seq_lib::group_to_multiset_ensures;
    lemma_jeu_complet();
    assert(jeu.len() == jeu.to_multiset().len());
    assert(jeu_complet().len() == jeu_complet().to_multiset().len());
    lemma_donne_complete(jeu, nb);
    assert forall|j: int| 0 <= j < nb implies #[trigger] mains_recues(avant, apres)[j]
        == mains_donnees(jeu, nb)[j] by {
        assert(apres.joueurs[j].main.skip(avant.joueurs[j].main.len() as int) =~= main_donnee(
            jeu,
            nb,
            j,
        ));
    }
    assert(mains_recues(avant, apres) =~= mains_donnees(jeu, nb));
    jeu_complet().lemma_multiset_has_no_duplicates();
    assert forall|carte: Carte| jeu_complet().to_multiset().count(carte) == 1 by {
        assert(jeu_complet().contains(carte));
    }
    assert forall|j: int| 0 <= j < nb implies (#[trigger] mains_recues(avant, apres)[j]).len()
        == 3 * nombre_de_tours(nb, 78) by {
        assert(main_donnee(jeu, nb, j).len() == 3 * nombre_de_tours(nb, 78));
    }
}

#[verifier::external_type_specification]
#[verifier::external_body]
pub struct ExThreadRng(rand::rngs::ThreadRng);

/// Calls `rand::thread_rng`, which hands out the random generator of the
/// running thread. Nothing is claimed of it.
#[verifier::external_body]
fn generateur() -> (rng: rand::rngs::ThreadRng) {
    rand::thread_rng()
}

/// Calls `rand::seq::SliceRandom::shuffle` on the deck. The claim is that the
/// shuffle only moves the cards about: the deck holds afterwards the cards
/// that it held before, each as often. Nothing is claimed of their order.
#[verifier::external_body]
fn melanger(jeu: &mut Vec<Carte>, rng: &mut rand::rngs::ThreadRng)
    ensures
        final(jeu)@.to_multiset() == old(jeu)@.to_multiset(),
{
    jeu.shuffle(rng);
}

/// Shuffles the deck and deals it: the dog is set aside and every player is
/// handed the same number of cards, three at a time, behind the cards already
/// in hand.
///
/// The deal fails, and nothing is dealt, where there is no player or where
/// the seventy-eight cards less the dog do not come out in whole rounds. The order of
/// the shuffled deck is left to chance; whatever it is, the dog and the cards
/// handed out are the seventy-eight cards, each in one place.
pub fn distrib<'a>(prep: PrePartie<'a>) -> (r: Result<PrePartie<'a>, ErreurDonne>)
    ensures
        match r {
            Ok(apres) => {
                &&& erreur_de_donne(prep.joueurs.len() as int, 78) is None
                &&& exists|jeu: Seq<Carte>| est_melange(jeu) && apres@ == #[trigger] donner(prep@, jeu)
                &&& apres.joueurs.len() == prep.joueurs.len()
                &&& apres.chien@.to_multiset().add(reunion(mains_recues(prep@, apres@)))
                    == jeu_complet().to_multiset()
                &&& forall|carte: Carte|
                    apres.chien@.to_multiset().add(reunion(mains_recues(prep@, apres@))).count(
                        carte,
                    ) == 1
                &&& forall|j: int|
                    0 <= j < prep.joueurs.len() ==> (#[trigger] mains_recues(
                        prep@,
                        apres@,
                    )[j]).len() == 3 * nombre_de_tours(prep.joueurs.len() as int, 78)
            },
            Err(e) => erreur_de_donne(prep.joueurs.len() as int, 78) == Some(e),
        },
{
    let mut jeu = creer_jeu();
    let mut rng = generateur();
    melanger(&mut jeu, &mut rng);
    proof {
        broadcast use vstd::seq_lib::group_to_multiset_ensures;
        assert(jeu@.len() == jeu@.to_multiset().len());
        assert(jeu_complet().len() == jeu_complet().to_multiset().len());
        if erreur_de_donne(prep.joueurs.len() as int, 78) is None {
            lemma_donne_du_jeu(prep@, jeu@);
        }
    }
    distribuer(prep, jeu)
}

} // verus!
