//! What holds of K-means models.

use crate::classifier;
use crate::classifier::{KMeansClassifier, KMeansModel, ModelError};
use crate::text;
use vstd::prelude::*;

verus! {

// ---------------------------------------------------------------------------
// Standardizing
// ---------------------------------------------------------------------------

/// Where features, means and deviations are equally many, however many that is,
/// every feature has its standardized value, in its own place.
pub proof fn law_every_feature_is_standardized<T, F: Fn(T, T, T) -> T>(
    c: KMeansClassifier<T>,
    features: Seq<T>,
    scale: F,
    scaled: Seq<T>,
    n: nat,
)
    requires
        features.len() == n,
        c.mean@.len() == n,
        c.std@.len() == n,
        c.standardizes_to(features, scale, scaled),
    ensures
        scaled.len() == n,
        forall|i: int|
            0 <= i < n ==> call_ensures(
                scale,
                (features[i], c.mean@[i], c.std@[i]),
                #[trigger] scaled[i],
            ),
{
}

/// A place has a standardized value exactly if it has a feature, a mean and a
/// deviation.
pub proof fn law_what_has_a_standardized_value<T, F: Fn(T, T, T) -> T>(
    c: KMeansClassifier<T>,
    features: Seq<T>,
    scale: F,
    scaled: Seq<T>,
    i: int,
)
    requires
        c.standardizes_to(features, scale, scaled),
        i >= 0,
    ensures
        i < scaled.len() <==> i < features.len() && i < c.mean@.len() && i < c.std@.len(),
        i < scaled.len() ==> call_ensures(scale, (features[i], c.mean@[i], c.std@[i]), scaled[i]),
{
}

/// Features that scale differently at some place, the last one too, are told
/// apart, and exactly at that place.
pub proof fn law_different_features_are_told_apart<T, F: Fn(T, T, T) -> T>(
    c: KMeansClassifier<T>,
    a: Seq<T>,
    b: Seq<T>,
    scale: F,
    scaled_a: Seq<T>,
    scaled_b: Seq<T>,
    n: nat,
    i: int,
)
    requires
        a.len() == n,
        b.len() == n,
        c.mean@.len() == n,
        c.std@.len() == n,
        c.standardizes_to(a, scale, scaled_a),
        c.standardizes_to(b, scale, scaled_b),
        0 <= i < n,
        forall|x: T, y: T|
            #![trigger call_ensures(scale, (a[i], c.mean@[i], c.std@[i]), x),
                call_ensures(scale, (b[i], c.mean@[i], c.std@[i]), y)]
            call_ensures(scale, (a[i], c.mean@[i], c.std@[i]), x) && call_ensures(
                scale,
                (b[i], c.mean@[i], c.std@[i]),
                y,
            ) ==> x != y,
    ensures
        scaled_a[i] != scaled_b[i],
        scaled_a != scaled_b,
{
    assert(call_ensures(scale, (a[i], c.mean@[i], c.std@[i]), scaled_a[i]));
    assert(call_ensures(scale, (b[i], c.mean@[i], c.std@[i]), scaled_b[i]));
}

/// Whatever has a value in every place, each from scaling what stands there, is
/// what standardizing can give.
pub proof fn law_what_standardizing_gives<T, F: Fn(T, T, T) -> T>(
    c: KMeansClassifier<T>,
    features: Seq<T>,
    scale: F,
    scaled: Seq<T>,
)
    requires
        features.len() == c.mean@.len(),
        features.len() == c.std@.len(),
        scaled.len() == features.len(),
        forall|i: int|
            0 <= i < scaled.len() ==> call_ensures(
                scale,
                (features[i], c.mean@[i], c.std@[i]),
                #[trigger] scaled[i],
            ),
    ensures
        c.standardizes_to(features, scale, scaled),
{
}

// ---------------------------------------------------------------------------
// Predicting
// ---------------------------------------------------------------------------

/// Every centroid has its rank, in its own place: that of its distance to the
/// standardized features.
pub proof fn law_every_centroid_is_ranked<T, D: Fn(&Vec<T>, &Vec<T>) -> u64>(
    c: KMeansClassifier<T>,
    scaled: Vec<T>,
    rank: D,
    ranks: Seq<u64>,
)
    requires
        c.are_ranks(scaled, rank, ranks),
    ensures
        ranks.len() == c.centroids@.len(),
        c.is_consistent() ==> ranks.len() == c.n_clusters,
        forall|i: int|
            0 <= i < c.centroids@.len() ==> call_ensures(
                rank,
                (&scaled, &c.centroids@[i]),
                #[trigger] ranks[i],
            ),
{
}

/// No centroid is nearer than the chosen one, and none before it is as near. If
/// every distance is out of range, the choice is the first cluster.
pub proof fn law_no_centroid_is_nearer(ranks: Seq<u64>, cluster: int, other: int)
    requires
        classifier::is_nearest(ranks, cluster),
        0 <= other < ranks.len(),
    ensures
        0 <= cluster < ranks.len(),
        ranks[cluster] <= ranks[other],
        other < cluster ==> ranks[cluster] < ranks[other],
        (forall|i: int| 0 <= i < ranks.len() ==> #[trigger] ranks[i] == u64::MAX) ==> cluster == 0,
{
    if !(exists|i: int| 0 <= i < ranks.len() && #[trigger] ranks[i] < classifier::FARTHEST) {
        assert(ranks[other] >= classifier::FARTHEST);
        assert(ranks[0] >= classifier::FARTHEST);
    }
}

/// A strictly nearest centroid is chosen, wherever it stands.
pub proof fn law_nearest_centroid_is_chosen(ranks: Seq<u64>, best: int, cluster: int)
    requires
        0 <= best < ranks.len(),
        forall|i: int| 0 <= i < ranks.len() && i != best ==> ranks[best] < #[trigger] ranks[i],
        ranks[best] < u64::MAX,
        classifier::is_nearest(ranks, cluster),
    ensures
        cluster == best,
{
    assert(ranks[best] < classifier::FARTHEST);
    if cluster != best {
        assert(ranks[best] < ranks[cluster]);
    }
}

/// Without centroids the choice is 0.
pub proof fn law_nothing_to_choose_from(ranks: Seq<u64>, cluster: int)
    requires
        ranks.len() == 0,
        classifier::is_nearest(ranks, cluster),
    ensures
        cluster == 0,
{
}

// ---------------------------------------------------------------------------
// Loading
// ---------------------------------------------------------------------------

/// A model is accepted exactly if it has one centroid per cluster and as many
/// means as deviations. The count of centroids is complained of first, with both
/// numbers.
pub proof fn law_what_is_wrong_with_a_model<T>(model: KMeansModel<T>)
    ensures
        classifier::is_sound(model) <==> model.centroids@.len() == model.n_clusters
            && model.scaler.mean@.len() == model.scaler.std@.len(),
        model.centroids@.len() != model.n_clusters ==> (classifier::model_fault(
            model,
        ) matches ModelError::CentroidCount { centroids, n_clusters } && n_clusters
            == model.n_clusters && (model.centroids@.len() <= usize::MAX ==> centroids
            == model.centroids@.len())),
        model.centroids@.len() == model.n_clusters ==> classifier::model_fault(
            model,
        ) is ScalerLength,
{
}

/// A classifier's parts fit together.
pub proof fn law_parts_fit_together<T>(c: KMeansClassifier<T>)
    ensures
        c.is_consistent() <==> c.centroids@.len() == c.n_clusters && c.mean@.len() == c.std@.len(),
{
}

/// The words of each complaint about a model.
pub proof fn law_complaints(e: ModelError)
    ensures
        e is Json ==> e.text() == "Failed to parse model JSON"@,
        e is MissingAlgorithm ==> e.text() == "Missing 'algorithm' field in model JSON"@,
        e matches ModelError::Unsupported { algorithm } ==> e.text() == "Unsupported algorithm: "@
            + algorithm@,
        e is KMeans ==> e.text() == "Failed to parse KMeans model"@,
        e matches ModelError::CentroidCount { centroids, n_clusters } ==> e.text()
            == "Centroid count ("@ + text::decimal(centroids as nat)
            + ") does not match n_clusters ("@ + text::decimal(n_clusters as nat) + ")"@,
        e is ScalerLength ==> e.text() == "Scaler mean/std length mismatch"@,
{
}

} // verus!
