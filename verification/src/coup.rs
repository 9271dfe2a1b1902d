//! Which cards of a hand may be played on the cards already on the table.

use vstd::prelude::*;
use crate::carte::{Atout, Carte, Couleur, Valeur};

verus! {

/// The suit that a trick opened with: the suit of its first card, or none
/// where that card is a trump.
pub open spec fn couleur_ouverture(cartes: Seq<Carte>) -> Option<Couleur>
    recommends
        cartes.len() > 0,
{
    match cartes[0] {
        Carte::CarteNorm(coul, _) => Some(coul),
        Carte::Atout(_) => None,
    }
}

/// Whether a card answers a demand: a suited card answers the demand of its
/// own suit, a trump answers the demand of no suit.
pub open spec fn repond(carte: Carte, demande: Option<Couleur>) -> bool {
    match carte {
        Carte::CarteNorm(coul, _) => demande == Some(coul),
        Carte::Atout(_) => demande is None,
    }
}

/// Whether some card among `cartes` answers the demand.
pub open spec fn possede(cartes: Seq<Carte>, demande: Option<Couleur>) -> bool {
    exists|i: int| 0 <= i < cartes.len() && repond(#[trigger] cartes[i], demande)
}

/// The highest trump among `cartes`, the Excuse counting as the lowest; none
/// where no card is a trump.
pub open spec fn plus_grand_atout(cartes: Seq<Carte>) -> Option<Atout>
    decreases cartes.len(),
{
    if cartes.len() == 0 {
        None
    } else {
        let avant = plus_grand_atout(cartes.drop_last());
        match cartes.last() {
            Carte::CarteNorm(_, _) => avant,
            Carte::Atout(at) => match avant {
                Some(haut) => if at.ordre() > haut.ordre() {
                    Some(at)
                } else {
                    avant
                },
                None => Some(at),
            },
        }
    }
}

/// The highest trump is a trump of the cards and no trump of theirs is
/// higher; there is none exactly where the cards hold no trump.
pub proof fn lemma_plus_grand_atout(cartes: Seq<Carte>)
    ensures
        plus_grand_atout(cartes) is None <==> !possede(cartes, None),
        plus_grand_atout(cartes) matches Some(haut) ==> cartes.contains(Carte::Atout(haut)),
        forall|i: int|
            0 <= i < cartes.len() ==> (#[trigger] cartes[i] matches Carte::Atout(at)
                ==> plus_grand_atout(cartes) is Some && at.ordre() <= plus_grand_atout(
                cartes,
            )->0.ordre()),
    decreases cartes.len(),
{
    if cartes.len() > 0 {
        let debut = cartes.drop_last();
        lemma_plus_grand_atout(debut);
        assert forall|i: int| 0 <= i < debut.len() implies debut[i] == cartes[i] by {}
        if let Some(haut) = plus_grand_atout(cartes) {
            if plus_grand_atout(debut) == Some(haut) {
                let k = choose|k: int| 0 <= k < debut.len() && debut[k] == Carte::Atout(haut);
                assert(cartes[k] == Carte::Atout(haut));
            } else {
                assert(cartes[cartes.len() - 1] == Carte::Atout(haut));
            }
        }
        if possede(cartes, None) {
            let k = choose|k: int| 0 <= k < cartes.len() && repond(#[trigger] cartes[k], None);
            if k < debut.len() {
                assert(repond(debut[k], None));
            }
        } else {
            if possede(debut, None) {
                let k = choose|k: int| 0 <= k < debut.len() && repond(#[trigger] debut[k], None);
                assert(repond(cartes[k], None));
            }
            assert(!repond(cartes[cartes.len() - 1], None));
        }
    }
}

/// The suit that the trick opened with. The trick has a first card.
pub fn couleur_demandee(carte: &[Carte]) -> (r: Option<Couleur>)
    requires
        carte.len() > 0,
    ensures
        r == couleur_ouverture(carte@),
{
    match carte[0] {
        Carte::CarteNorm(coul, _) => Some(coul),
        Carte::Atout(_) => None,
    }
}

/// Whether the cards hold one of the suit given, or a trump where no suit is given.
pub fn a_couleur(cartes: &[Carte], couleur: Option<Couleur>) -> (r: bool)
    ensures
        r == possede(cartes@, couleur),
{
    let mut i: usize = 0;
    while i < cartes.len()
        invariant
            i <= cartes.len(),
            forall|k: int| 0 <= k < i ==> !repond(#[trigger] cartes@[k], couleur),
        decreases cartes.len() - i,
    {
        let trouve = match cartes[i] {
            Carte::CarteNorm(coul, _) => match couleur {
                Some(demandee) => coul == demandee,
                None => false,
            },
            Carte::Atout(_) => couleur.is_none(),
        };
        if trouve {
            assert(repond(cartes@[i as int], couleur));
            return true;
        }
        i += 1;
    }
    false
}

/// The highest trump among the cards, if they hold one.
pub fn atout_max(cartes: &[Carte]) -> (r: Option<Atout>)
    ensures
        r == plus_grand_atout(cartes@),
        r is None <==> !possede(cartes@, None),
        r matches Some(haut) ==> cartes@.contains(Carte::Atout(haut)) && forall|i: int|
            0 <= i < cartes.len() ==> (#[trigger] cartes@[i] matches Carte::Atout(at)
                ==> at.ordre() <= haut.ordre()),
{
    let mut max: Option<Atout> = None;
    let mut i: usize = 0;
    while i < cartes.len()
        invariant
            i <= cartes.len(),
            max == plus_grand_atout(cartes@.take(i as int)),
        decreases cartes.len() - i,
    {
        assert(cartes@.take(i + 1).drop_last() == cartes@.take(i as int));
        match cartes[i] {
            Carte::CarteNorm(_, _) => {},
            Carte::Atout(at) => {
                max = match max {
                    Some(haut) => if at.rang() > haut.rang() {
                        Some(at)
                    } else {
                        max
                    },
                    None => Some(at),
                };
            },
        }
        i += 1;
    }
    proof {
        assert(cartes@.take(i as int) == cartes@);
        lemma_plus_grand_atout(cartes@);
    }
    max
}

/// Whether a trump may be played by a hand whose highest trump is `max_main`,
/// the highest trump on the table being `max_table`: a hand that can go above
/// the table must do so, any other hand plays the trump it likes.
pub open spec fn monte(at: Atout, max_table: Option<Atout>, max_main: Atout) -> bool {
    match max_table {
        Some(haut) => max_main.ordre() > haut.ordre() ==> at.ordre() > haut.ordre(),
        None => true,
    }
}

/// Whether `carte`, a card of the hand `main`, may be played on the cards
/// `jouees` that the trick holds so far.
///
/// The Excuse may always be played. The player who opens the first trick of
/// the game may play anything but a card of the called king's suit below the
/// king. After that, a hand that holds the suit of the trick's first card
/// follows it; a hand that does not, or a trick opened with a trump, plays a
/// trump if the hand holds one (and a higher one than the table's where it
/// can); a hand with neither plays what it likes.
pub open spec fn jouable(
    jouees: Seq<Carte>,
    main: Seq<Carte>,
    premier_tour: bool,
    roi_appele: Couleur,
    carte: Carte,
) -> bool {
    if carte == Carte::Atout(Atout::Excuse) {
        true
    } else if premier_tour && jouees.len() == 0 {
        match carte {
            Carte::CarteNorm(coul, val) => coul != roi_appele || val == Valeur::Roi,
            Carte::Atout(_) => true,
        }
    } else {
        let demandee = couleur_ouverture(jouees);
        if demandee is Some && possede(main, demandee) {
            repond(carte, demandee)
        } else {
            match plus_grand_atout(main) {
                Some(max_main) => match carte {
                    Carte::Atout(at) => monte(at, plus_grand_atout(jouees), max_main),
                    Carte::CarteNorm(_, _) => false,
                },
                None => true,
            }
        }
    }
}

/// `jouable` as a predicate on the card alone.
pub open spec fn est_jouable(
    jouees: Seq<Carte>,
    main: Seq<Carte>,
    premier_tour: bool,
    roi_appele: Couleur,
) -> spec_fn(Carte) -> bool {
    |carte: Carte| jouable(jouees, main, premier_tour, roi_appele, carte)
}

/// The cards of the hand that the rule lets play, in the order of the hand.
pub open spec fn jouables(
    jouees: Seq<Carte>,
    main: Seq<Carte>,
    premier_tour: bool,
    roi_appele: Couleur,
) -> Seq<Carte> {
    main.filter(est_jouable(jouees, main, premier_tour, roi_appele))
}

/// Whether the hand opens the first trick with nothing but cards of the
/// called king's suit below the king: the one hand that no rule lets play.
pub open spec fn main_bloquee(
    jouees: Seq<Carte>,
    main: Seq<Carte>,
    premier_tour: bool,
    roi_appele: Couleur,
) -> bool {
    premier_tour && jouees.len() == 0 && forall|i: int|
        0 <= i < main.len() ==> (#[trigger] main[i] matches Carte::CarteNorm(coul, val) && coul
            == roi_appele && val != Valeur::Roi)
}

/// The cards among which the player chooses, in the order of the hand: those
/// that the rule lets play, or the whole hand where the hand is blocked, so
/// that a player who holds a card always has one to put down.
pub open spec fn choix(
    jouees: Seq<Carte>,
    main: Seq<Carte>,
    premier_tour: bool,
    roi_appele: Couleur,
) -> Seq<Carte> {
    if main_bloquee(jouees, main, premier_tour, roi_appele) {
        main
    } else {
        jouables(jouees, main, premier_tour, roi_appele)
    }
}

/// Two predicates that agree on every item of a sequence keep the same items.
pub proof fn lemma_filtre_egal(s: Seq<Carte>, p: spec_fn(Carte) -> bool, q: spec_fn(Carte) -> bool)
    requires
        forall|i: int| 0 <= i < s.len() ==> p(#[trigger] s[i]) == q(s[i]),
    ensures
        s.filter(p) == s.filter(q),
    decreases s.len(),
{
    reveal(Seq::filter);
    if s.len() > 0 {
        let debut = s.drop_last();
        assert forall|i: int| 0 <= i < debut.len() implies p(#[trigger] debut[i]) == q(
            debut[i],
        ) by {
            assert(debut[i] == s[i]);
        }
        lemma_filtre_egal(debut, p, q);
        assert(p(s[s.len() - 1]) == q(s[s.len() - 1]));
    }
}

/// The rule lets a hand play some card unless the hand is empty or blocked at
/// the opening of the first trick; in particular it always lets a hand that
/// holds the Excuse play.
pub proof fn lemma_coup_existe(
    jouees: Seq<Carte>,
    main: Seq<Carte>,
    premier_tour: bool,
    roi_appele: Couleur,
)
    ensures
        jouables(jouees, main, premier_tour, roi_appele).len() == 0 <==> main.len() == 0
            || main_bloquee(jouees, main, premier_tour, roi_appele),
        main.contains(Carte::Atout(Atout::Excuse)) ==> jouables(
            jouees,
            main,
            premier_tour,
            roi_appele,
        ).len() > 0,
{
    let p = est_jouable(jouees, main, premier_tour, roi_appele);
    let gardees = main.filter(p);
    broadcast use Seq::lemma_filter_contains, Seq::lemma_filter_pred, Seq::lemma_filter_contains_rev;
    if gardees.len() > 0 {
        // A playable card shows that the hand is neither empty nor blocked.
        let c = gardees[0];
        assert(p(c));
        assert(gardees.contains(c));
        assert(main.contains(c));
        let k = choose|k: int| 0 <= k < main.len() && main[k] == c;
        assert(jouable(jouees, main, premier_tour, roi_appele, main[k]));
    } else if main.len() > 0 && !main_bloquee(jouees, main, premier_tour, roi_appele) {
        // Otherwise some card is playable, whatever the state of the trick.
        let k = lemma_indice_jouable(jouees, main, premier_tour, roi_appele);
        assert(p(main[k]));
        assert(gardees.contains(main[k]));
    }
    if main.contains(Carte::Atout(Atout::Excuse)) {
        let k = choose|k: int| 0 <= k < main.len() && main[k] == Carte::Atout(Atout::Excuse);
        assert(p(main[k]));
        assert(gardees.contains(main[k]));
    }
}

/// The place of a card that may be played, in a hand that is neither empty
/// nor blocked.
pub proof fn lemma_indice_jouable(
    jouees: Seq<Carte>,
    main: Seq<Carte>,
    premier_tour: bool,
    roi_appele: Couleur,
) -> (k: int)
    requires
        main.len() > 0,
        !main_bloquee(jouees, main, premier_tour, roi_appele),
    ensures
        0 <= k < main.len(),
        jouable(jouees, main, premier_tour, roi_appele, main[k]),
{
    lemma_plus_grand_atout(main);
    if premier_tour && jouees.len() == 0 {
        choose|i: int|
            0 <= i < main.len() && !(#[trigger] main[i] matches Carte::CarteNorm(coul, val) && coul
                == roi_appele && val != Valeur::Roi)
    } else {
        let demandee = couleur_ouverture(jouees);
        if demandee is Some && possede(main, demandee) {
            choose|i: int| 0 <= i < main.len() && repond(#[trigger] main[i], demandee)
        } else {
            match plus_grand_atout(main) {
                Some(max_main) => choose|i: int|
                    0 <= i < main.len() && main[i] == Carte::Atout(max_main),
                None => 0,
            }
        }
    }
}

/// A player who holds a card has a card to choose, and chooses among the
/// cards of the hand only.
pub proof fn lemma_choix_existe(
    jouees: Seq<Carte>,
    main: Seq<Carte>,
    premier_tour: bool,
    roi_appele: Couleur,
)
    ensures
        choix(jouees, main, premier_tour, roi_appele).len() == 0 <==> main.len() == 0,
        forall|carte: Carte|
            choix(jouees, main, premier_tour, roi_appele).contains(carte) ==> main.contains(carte),
{
    lemma_coup_existe(jouees, main, premier_tour, roi_appele);
    broadcast use Seq::lemma_filter_contains_rev;
}

/// On a trick opened with a suit that the hand holds, the player chooses
/// among the hand's cards of that suit, and the Excuse if the hand holds it.
pub proof fn lemma_fournir(
    jouees: Seq<Carte>,
    main: Seq<Carte>,
    premier_tour: bool,
    roi_appele: Couleur,
    demandee: Couleur,
)
    requires
        jouees.len() > 0,
        couleur_ouverture(jouees) == Some(demandee),
        possede(main, Some(demandee)),
    ensures
        forall|carte: Carte|
            jouable(jouees, main, premier_tour, roi_appele, carte) <==> (carte == Carte::Atout(
                Atout::Excuse,
            ) || repond(carte, Some(demandee))),
        choix(jouees, main, premier_tour, roi_appele) == main.filter(
            |carte: Carte|
                carte == Carte::Atout(Atout::Excuse) || repond(carte, Some(demandee)),
        ),
{
    lemma_filtre_egal(
        main,
        est_jouable(jouees, main, premier_tour, roi_appele),
        |carte: Carte| carte == Carte::Atout(Atout::Excuse) || repond(carte, Some(demandee)),
    );
}

/// The cards of the hand `cartes_joueur` among which the player chooses on
/// the cards `cartes_jouees` already in the trick, in the order of the hand.
///
/// `premier_tour` says whether this is the first trick of the game, and
/// `roi_appele` is the suit of the called king. These are the cards that the
/// rule lets play. One hand the rule would leave with nothing: the hand that
/// opens the first trick with only cards of the called king's suit below the
/// king. For that hand the rule is lifted and every card may be played, so a
/// player who holds a card is never left without one; `cartes_permises` reports
/// that hand instead.
///
/// The player who opens a later trick is bound by no rule of this function:
/// it is for a trick that has a first card, or for the opening of the first
/// trick.
pub fn cartes_jouables(
    cartes_jouees: &[Carte],
    cartes_joueur: &[Carte],
    premier_tour: bool,
    roi_appele: Couleur,
) -> (r: Vec<Carte>)
    requires
        premier_tour || cartes_jouees.len() > 0,
    ensures
        r@ == choix(cartes_jouees@, cartes_joueur@, premier_tour, roi_appele),
        r@ == (if main_bloquee(cartes_jouees@, cartes_joueur@, premier_tour, roi_appele) {
            cartes_joueur@
        } else {
            jouables(cartes_jouees@, cartes_joueur@, premier_tour, roi_appele)
        }),
        r.len() == 0 <==> cartes_joueur.len() == 0,
{
    let selon_regle = jouables_selon_regle(
        cartes_jouees,
        cartes_joueur,
        premier_tour,
        roi_appele,
    );
    if selon_regle.len() == 0 && cartes_joueur.len() > 0 {
        vstd::slice::slice_to_vec(cartes_joueur)
    } else {
        proof {
            if cartes_joueur.len() == 0 {
                assert(selon_regle@ == cartes_joueur@);
            }
        }
        selon_regle
    }
}

/// The cards of the hand that the rule lets play, in the order of the hand;
/// none for an empty hand and for a blocked one.
fn jouables_selon_regle(
    cartes_jouees: &[Carte],
    cartes_joueur: &[Carte],
    premier_tour: bool,
    roi_appele: Couleur,
) -> (r: Vec<Carte>)
    requires
        premier_tour || cartes_jouees.len() > 0,
    ensures
        r@ == jouables(cartes_jouees@, cartes_joueur@, premier_tour, roi_appele),
        r.len() == 0 <==> cartes_joueur.len() == 0 || main_bloquee(
            cartes_jouees@,
            cartes_joueur@,
            premier_tour,
            roi_appele,
        ),
{
    let ouverture = premier_tour && cartes_jouees.len() == 0;
    let demandee = if ouverture {
        None
    } else {
        couleur_demandee(cartes_jouees)
    };
    let fournit = demandee.is_some() && a_couleur(cartes_joueur, demandee);
    let max_table = atout_max(cartes_jouees);
    let max_main = atout_max(cartes_joueur);
    let ghost p = est_jouable(cartes_jouees@, cartes_joueur@, premier_tour, roi_appele);
    let mut r: Vec<Carte> = Vec::new();
    let mut i: usize = 0;
    proof {
        reveal(Seq::filter);
        assert(cartes_joueur@.take(0).filter(p) == Seq::<Carte>::empty());
    }
    while i < cartes_joueur.len()
        invariant
            i <= cartes_joueur.len(),
            ouverture == (premier_tour && cartes_jouees.len() == 0),
            !ouverture ==> cartes_jouees.len() > 0 && demandee == couleur_ouverture(
                cartes_jouees@,
            ),
            fournit == (demandee is Some && possede(cartes_joueur@, demandee)),
            max_table == plus_grand_atout(cartes_jouees@),
            max_main == plus_grand_atout(cartes_joueur@),
            p == est_jouable(cartes_jouees@, cartes_joueur@, premier_tour, roi_appele),
            r@ == cartes_joueur@.take(i as int).filter(p),
        decreases cartes_joueur.len() - i,
    {
        let carte = cartes_joueur[i];
        let permis = match carte {
            Carte::Atout(Atout::Excuse) => true,
            Carte::CarteNorm(coul, val) => {
                if ouverture {
                    coul != roi_appele || val == Valeur::Roi
                } else if fournit {
                    demandee == Some(coul)
                } else {
                    max_main.is_none()
                }
            },
            Carte::Atout(at) => {
                if ouverture || fournit {
                    ouverture
                } else {
                    match max_main {
                        Some(haut_main) => match max_table {
                            Some(haut) => haut_main.rang() <= haut.rang() || at.rang() > haut.rang(),
                            None => true,
                        },
                        None => true,
                    }
                }
            },
        };
        proof {
            assert(permis == p(carte));
            assert(cartes_joueur@.take(i + 1) == cartes_joueur@.take(i as int).push(carte));
            cartes_joueur@.take(i as int).lemma_filter_push(carte, p);
        }
        if permis {
            r.push(carte);
        }
        i += 1;
    }
    proof {
        assert(cartes_joueur@.take(i as int) == cartes_joueur@);
        lemma_coup_existe(cartes_jouees@, cartes_joueur@, premier_tour, roi_appele);
    }
    r
}

/// Why a player has no card to put down.
#[derive(Clone, Copy, Debug, PartialEq, Eq, Structural)]
pub enum ErreurCoup {
    /// The trick holds no card yet and is not the first of the game: the
    /// rules of the trick say nothing of the card that opens it.
    PliNonOuvert,
    /// The hand holds no card.
    MainVide,
    /// The hand opens the first trick with nothing but cards of the called
    /// king's suit below the king.
    MainBloquee,
}

/// What stops a hand from playing on the cards of the trick, if anything does.
pub open spec fn erreur_de_coup(
    jouees: Seq<Carte>,
    main: Seq<Carte>,
    premier_tour: bool,
    roi_appele: Couleur,
) -> Option<ErreurCoup> {
    if !premier_tour && jouees.len() == 0 {
        Some(ErreurCoup::PliNonOuvert)
    } else if main.len() == 0 {
        Some(ErreurCoup::MainVide)
    } else if main_bloquee(jouees, main, premier_tour, roi_appele) {
        Some(ErreurCoup::MainBloquee)
    } else {
        None
    }
}

/// The cards of the hand that the rule lets play, of which there is at least
/// one, or the reason why it lets the hand play nothing. The rule is lifted
/// for no hand here: the caller decides what a player with a blocked hand does.
pub fn cartes_permises(
    cartes_jouees: &[Carte],
    cartes_joueur: &[Carte],
    premier_tour: bool,
    roi_appele: Couleur,
) -> (r: Result<Vec<Carte>, ErreurCoup>)
    ensures
        match r {
            Ok(cartes) => {
                &&& erreur_de_coup(cartes_jouees@, cartes_joueur@, premier_tour, roi_appele) is None
                &&& cartes@ == jouables(cartes_jouees@, cartes_joueur@, premier_tour, roi_appele)
                &&& cartes.len() > 0
            },
            Err(e) => erreur_de_coup(cartes_jouees@, cartes_joueur@, premier_tour, roi_appele)
                == Some(e),
        },
{
    if !premier_tour && cartes_jouees.len() == 0 {
        return Err(ErreurCoup::PliNonOuvert);
    }
    if cartes_joueur.len() == 0 {
        return Err(ErreurCoup::MainVide);
    }
    let cartes = jouables_selon_regle(cartes_jouees, cartes_joueur, premier_tour, roi_appele);
    if cartes.len() == 0 {
        Err(ErreurCoup::MainBloquee)
    } else {
        Ok(cartes)
    }
}

} // verus!
