//! Models that put a task into a cluster by its features.
//!
//! Features, centroids and scaler entries are of a type `T` that only the caller
//! calculates with; distances reach this module as ranks, integers in the order
//! of the distances.

use crate::text;
use vstd::prelude::*;

verus! {

// ---------------------------------------------------------------------------
// serde_json
// ---------------------------------------------------------------------------

/// A parsed JSON document.
#[verifier::external_type_specification]
#[verifier::external_body]
pub struct ExJsonValue(serde_json::Value);

/// Why a text is not the JSON that was asked for.
#[verifier::external_type_specification]
#[verifier::external_body]
pub struct ExJsonError(serde_json::Error);

/// The members of a JSON object whose values are strings; none where the
/// document is not an object.
pub uninterp spec fn string_members(v: serde_json::Value) -> Map<Seq<char>, Seq<char>>;

/// The string members of the document that `serde_json::from_str` reads from a
/// text; `None` where it reads none.
pub uninterp spec fn json_strings(s: Seq<char>) -> Option<Map<Seq<char>, Seq<char>>>;

/// `serde_json::from_str`, asked for a document of any shape. Whether the text
/// is JSON, and which string members the document then has, is named, not
/// described.
#[verifier::external_body]
fn parse_json(s: &str) -> (r: Result<serde_json::Value, serde_json::Error>)
    ensures
        r is Ok <==> json_strings(s@) is Some,
        r matches Ok(v) ==> json_strings(s@) == Some(string_members(v)),
{
    serde_json::from_str(s)
}

/// `serde_json::Value` indexed by a key, then `as_str`: the string under that
/// key of an object; nothing if there is no such key, if the value under it is
/// no string, or if the document is no object.
#[verifier::external_body]
fn string_member(v: &serde_json::Value, key: &str) -> (r: Option<String>)
    ensures
        r is Some <==> string_members(*v).contains_key(key@),
        r matches Some(s) ==> s@ == string_members(*v)[key@],
{
    v[key].as_str().map(String::from)
}

// ---------------------------------------------------------------------------
// Errors
// ---------------------------------------------------------------------------

/// Why a model cannot be loaded.
#[derive(Debug)]
pub enum ModelError {
    /// The text is not JSON.
    Json { cause: serde_json::Error },
    /// There is no `algorithm` string.
    MissingAlgorithm,
    /// The algorithm is not one that is known here.
    Unsupported { algorithm: String },
    /// The document is not a K-means model.
    KMeans { cause: serde_json::Error },
    /// The number of centroids is not the stated number of clusters.
    CentroidCount { centroids: usize, n_clusters: usize },
    /// The scaler's mean and std differ in length.
    ScalerLength,
}

impl ModelError {
    /// What the error is reported as.
    pub open spec fn text(self) -> Seq<char> {
        match self {
            ModelError::Json { .. } => "Failed to parse model JSON"@,
            ModelError::MissingAlgorithm => "Missing 'algorithm' field in model JSON"@,
            ModelError::Unsupported { algorithm } => "Unsupported algorithm: "@ + algorithm@,
            ModelError::KMeans { .. } => "Failed to parse KMeans model"@,
            ModelError::CentroidCount { centroids, n_clusters } => "Centroid count ("@
                + text::decimal(centroids as nat) + ") does not match n_clusters ("@
                + text::decimal(n_clusters as nat) + ")"@,
            ModelError::ScalerLength => "Scaler mean/std length mismatch"@,
        }
    }

    /// What the error is reported as.
    pub fn message(&self) -> (r: String)
        ensures
            r@ == self.text(),
    {
        let mut s = String::new();
        match self {
            ModelError::Json { .. } => s.push_str("Failed to parse model JSON"),
            ModelError::MissingAlgorithm => s.push_str("Missing 'algorithm' field in model JSON"),
            ModelError::Unsupported { algorithm } => {
                s.push_str("Unsupported algorithm: ");
                s.push_str(algorithm.as_str());
            },
            ModelError::KMeans { .. } => s.push_str("Failed to parse KMeans model"),
            ModelError::CentroidCount { centroids, n_clusters } => {
                s.push_str("Centroid count (");
                text::push_decimal(&mut s, *centroids as u64);
                s.push_str(") does not match n_clusters (");
                text::push_decimal(&mut s, *n_clusters as u64);
                s.push_str(")");
            },
            ModelError::ScalerLength => s.push_str("Scaler mean/std length mismatch"),
        }
        assert(s@ =~= self.text());
        s
    }
}

// ---------------------------------------------------------------------------
// K-means
// ---------------------------------------------------------------------------

/// Mean and standard deviation of each feature in the training data.
#[derive(Debug, Clone)]
pub struct KMeansScaler<T> {
    pub mean: Vec<T>,
    pub std: Vec<T>,
}

/// A trained K-means model.
#[derive(Debug, Clone)]
pub struct KMeansModel<T> {
    pub n_clusters: usize,
    pub centroids: Vec<Vec<T>>,
    pub scaler: KMeansScaler<T>,
}

/// A K-means model whose parts fit together.
#[derive(Debug, Clone)]
pub struct KMeansClassifier<T> {
    pub n_clusters: usize,
    pub centroids: Vec<Vec<T>>,
    pub mean: Vec<T>,
    pub std: Vec<T>,
}

/// The rank of a distance that no centroid is chosen for: one that is not below
/// the largest finite distance, or not a number.
pub const FARTHEST: u64 = 0xffff_ffff_ffff_ffff;

/// The cluster to choose by the ranks of the distances to the centroids: the
/// first of the nearest, or 0 if every distance is out of range.
pub open spec fn is_nearest(ranks: Seq<u64>, cluster: int) -> bool {
    if exists|i: int| 0 <= i < ranks.len() && #[trigger] ranks[i] < FARTHEST {
        &&& 0 <= cluster < ranks.len()
        &&& forall|i: int| 0 <= i < ranks.len() ==> ranks[cluster] <= #[trigger] ranks[i]
        &&& forall|i: int| 0 <= i < cluster ==> ranks[cluster] < #[trigger] ranks[i]
    } else {
        cluster == 0
    }
}

/// Chooses the cluster by the ranks of the distances to the centroids.
pub fn nearest_cluster(ranks: &Vec<u64>) -> (cluster: usize)
    ensures
        is_nearest(ranks@, cluster as int),
{
    let mut best_cluster: usize = 0;
    let mut best: u64 = FARTHEST;
    for i in 0..ranks.len()
        invariant
            best == FARTHEST ==> best_cluster == 0,
            best < FARTHEST ==> best_cluster < i && ranks@[best_cluster as int] == best,
            forall|j: int| 0 <= j < i ==> best <= #[trigger] ranks@[j],
            forall|j: int| 0 <= j < best_cluster ==> best < #[trigger] ranks@[j],
    {
        if ranks[i] < best {
            best = ranks[i];
            best_cluster = i;
        }
    }
    if best < FARTHEST {
        assert(ranks@[best_cluster as int] < FARTHEST);
    }
    best_cluster
}

/// The first of the nearest centroids is the only choice.
pub proof fn law_nearest_is_unique(ranks: Seq<u64>, a: int, b: int)
    requires
        is_nearest(ranks, a),
        is_nearest(ranks, b),
    ensures
        a == b,
{
}

/// The choice is one of the clusters, if there are any.
pub proof fn law_nearest_is_a_cluster(ranks: Seq<u64>, cluster: int)
    requires
        is_nearest(ranks, cluster),
        ranks.len() > 0,
    ensures
        0 <= cluster < ranks.len(),
{
}

/// The smallest of three lengths.
pub open spec fn shortest(a: nat, b: nat, c: nat) -> nat {
    if a <= b && a <= c {
        a
    } else if b <= c {
        b
    } else {
        c
    }
}

impl<T> KMeansClassifier<T> {
    /// Whether there is a centroid for each cluster, and the scaler has a mean
    /// and a standard deviation for each feature.
    pub open spec fn is_consistent(self) -> bool {
        &&& self.centroids@.len() == self.n_clusters
        &&& self.mean@.len() == self.std@.len()
    }

    /// The classifier for a model, if the model's parts fit together.
    pub fn from_model(model: KMeansModel<T>) -> (r: Result<Self, ModelError>)
        ensures
            match r {
                Ok(c) => {
                    &&& c.is_consistent()
                    &&& c.n_clusters == model.n_clusters
                    &&& c.centroids == model.centroids
                    &&& c.mean == model.scaler.mean
                    &&& c.std == model.scaler.std
                },
                Err(e) => e == model_fault(model) && !is_sound(model),
            },
            r is Ok <==> is_sound(model),
    {
        if model.centroids.len() != model.n_clusters {
            return Err(
                ModelError::CentroidCount {
                    centroids: model.centroids.len(),
                    n_clusters: model.n_clusters,
                },
            );
        }
        if model.scaler.mean.len() != model.scaler.std.len() {
            return Err(ModelError::ScalerLength);
        }
        Ok(
            KMeansClassifier {
                n_clusters: model.n_clusters,
                centroids: model.centroids,
                mean: model.scaler.mean,
                std: model.scaler.std,
            },
        )
    }

    /// Number of clusters.
    pub fn n_clusters(&self) -> (r: usize)
        ensures
            r == self.n_clusters,
    {
        self.n_clusters
    }

    /// Whether `scaled` is what standardizing makes of `features`: one value for
    /// each feature that has a mean and a standard deviation, from one call of
    /// `scale` on the three.
    pub open spec fn standardizes_to<F: Fn(T, T, T) -> T>(
        self,
        features: Seq<T>,
        scale: F,
        scaled: Seq<T>,
    ) -> bool {
        &&& scaled.len() == shortest(features.len(), self.mean@.len(), self.std@.len())
        &&& forall|i: int|
            0 <= i < scaled.len() ==> call_ensures(
                scale,
                (features[i], self.mean@[i], self.std@[i]),
                #[trigger] scaled[i],
            )
    }

    /// Whether `ranks` are the ranks of the distances of `scaled` to the
    /// centroids.
    pub open spec fn are_ranks<D: Fn(&Vec<T>, &Vec<T>) -> u64>(
        self,
        scaled: Vec<T>,
        rank: D,
        ranks: Seq<u64>,
    ) -> bool {
        &&& ranks.len() == self.centroids@.len()
        &&& forall|i: int|
            0 <= i < ranks.len() ==> call_ensures(
                rank,
                (&scaled, &self.centroids@[i]),
                #[trigger] ranks[i],
            )
    }
}

/// Whether a model's parts fit together.
pub open spec fn is_sound<T>(model: KMeansModel<T>) -> bool {
    &&& model.centroids@.len() == model.n_clusters
    &&& model.scaler.mean@.len() == model.scaler.std@.len()
}

/// What is wrong with a model whose parts do not fit together.
pub open spec fn model_fault<T>(model: KMeansModel<T>) -> ModelError {
    if model.centroids@.len() != model.n_clusters {
        ModelError::CentroidCount {
            centroids: model.centroids@.len() as usize,
            n_clusters: model.n_clusters,
        }
    } else {
        ModelError::ScalerLength
    }
}

impl<T: Copy> KMeansClassifier<T> {
    /// Brings features to the scale that the model was trained on. `scale`
    /// makes one value out of a feature, its mean and its standard deviation.
    pub fn standardize<F: Fn(T, T, T) -> T>(&self, features: &Vec<T>, scale: F) -> (r: Vec<T>)
        requires
            forall|x: T, m: T, s: T| #[trigger] call_requires(scale, (x, m, s)),
        ensures
            self.standardizes_to(features@, scale, r@),
    {
        let mut scaled: Vec<T> = Vec::new();
        let mut i: usize = 0;
        while i < features.len() && i < self.mean.len() && i < self.std.len()
            invariant
                i <= features@.len(),
                i <= self.mean@.len(),
                i <= self.std@.len(),
                scaled@.len() == i,
                forall|x: T, m: T, s: T| #[trigger] call_requires(scale, (x, m, s)),
                forall|j: int|
                    0 <= j < i ==> call_ensures(
                        scale,
                        (features@[j], self.mean@[j], self.std@[j]),
                        #[trigger] scaled@[j],
                    ),
            decreases features@.len() - i,
        {
            scaled.push(scale(features[i], self.mean[i], self.std[i]));
            i = i + 1;
        }
        scaled
    }

    /// Predict the cluster of a feature vector: that of the centroid nearest to
    /// the standardized features. `rank` ranks the distance between the two
    /// vectors it is given.
    pub fn predict<F: Fn(T, T, T) -> T, D: Fn(&Vec<T>, &Vec<T>) -> u64>(
        &self,
        features: &Vec<T>,
        scale: F,
        rank: D,
    ) -> (cluster: usize)
        requires
            forall|x: T, m: T, s: T| #[trigger] call_requires(scale, (x, m, s)),
            forall|a: &Vec<T>, b: &Vec<T>| #[trigger] call_requires(rank, (a, b)),
        ensures
            exists|scaled: Vec<T>, ranks: Seq<u64>|
                {
                    &&& self.standardizes_to(features@, scale, scaled@)
                    &&& #[trigger] self.are_ranks(scaled, rank, ranks)
                    &&& is_nearest(ranks, cluster as int)
                },
            self.centroids@.len() > 0 ==> cluster < self.centroids@.len(),
    {
        let scaled = self.standardize(features, scale);
        let mut ranks: Vec<u64> = Vec::new();
        for i in 0..self.centroids.len()
            invariant
                ranks@.len() == i,
                forall|a: &Vec<T>, b: &Vec<T>| #[trigger] call_requires(rank, (a, b)),
                forall|j: int|
                    0 <= j < i ==> call_ensures(
                        rank,
                        (&scaled, &self.centroids@[j]),
                        #[trigger] ranks@[j],
                    ),
        {
            ranks.push(rank(&scaled, &self.centroids[i]));
        }
        assert(self.are_ranks(scaled, rank, ranks@));
        nearest_cluster(&ranks)
    }
}

// ---------------------------------------------------------------------------
// Loading
// ---------------------------------------------------------------------------

/// The algorithms that a model can be of.
#[derive(Debug, Clone, Copy, PartialEq, Eq, Structural)]
pub enum Algorithm {
    KMeans,
}

/// The algorithm that a model's `algorithm` member names.
pub fn algorithm_of(name: Option<String>) -> (r: Result<Algorithm, ModelError>)
    ensures
        match name {
            None => r == Err::<Algorithm, ModelError>(ModelError::MissingAlgorithm),
            Some(s) => if s@ == "kmeans"@ {
                r == Ok::<Algorithm, ModelError>(Algorithm::KMeans)
            } else {
                r == Err::<Algorithm, ModelError>(ModelError::Unsupported { algorithm: s })
            },
        },
{
    match name {
        None => Err(ModelError::MissingAlgorithm),
        Some(s) => {
            if text::same_text(s.as_str(), "kmeans") {
                Ok(Algorithm::KMeans)
            } else {
                Err(ModelError::Unsupported { algorithm: s })
            }
        },
    }
}

/// Load a classifier from the text of a JSON model file, dispatching on the
/// `algorithm` member. `parse` reads the text as a K-means model.
pub fn load_model<T, P: Fn(&str) -> Result<KMeansModel<T>, serde_json::Error>>(
    content: &str,
    parse: P,
) -> (r: Result<KMeansClassifier<T>, ModelError>)
    requires
        call_requires(parse, (content,)),
    ensures
        match json_strings(content@) {
            None => r matches Err(e) && e is Json,
            Some(members) => {
                if !members.contains_key("algorithm"@) {
                    r matches Err(e) && e is MissingAlgorithm
                } else if members["algorithm"@] != "kmeans"@ {
                    r matches Err(ModelError::Unsupported { algorithm }) && algorithm@
                        == members["algorithm"@]
                } else {
                    exists|parsed: Result<KMeansModel<T>, serde_json::Error>| #[trigger]
                        call_ensures(parse, (content,), parsed) && match parsed {
                            Err(cause) => r matches Err(e) && e == (ModelError::KMeans { cause }),
                            Ok(model) => match r {
                                Ok(c) => {
                                    &&& is_sound(model)
                                    &&& c.is_consistent()
                                    &&& c.n_clusters == model.n_clusters
                                    &&& c.centroids == model.centroids
                                    &&& c.mean == model.scaler.mean
                                    &&& c.std == model.scaler.std
                                },
                                Err(e) => !is_sound(model) && e == model_fault(model),
                            },
                        }
                }
            },
        },
{
    let raw = match parse_json(content) {
        Ok(raw) => raw,
        Err(cause) => return Err(ModelError::Json { cause }),
    };
    match algorithm_of(string_member(&raw, "algorithm")) {
        Err(e) => Err(e),
        Ok(Algorithm::KMeans) => match parse(content) {
            Ok(model) => {
                KMeansClassifier::from_model(model)
            },
            Err(cause) => Err(ModelError::KMeans { cause }),
        },
    }
}

} // verus!
