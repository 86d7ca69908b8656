use recommender::matrix::BuildError;
use recommender::matrix::Matrix;
use recommender::matrix::RecommendError;
use recommender::matrix::sort_by_rating_desc;
use recommender::store::similarity;

/// The fixed-point form of a rating given in hundredths.
fn fp(x: f32) -> i64 {
    (x * 100.0).round() as i64
}

#[test]
fn test_new() {
    let matrix = Matrix::new(3, 3);
    assert_eq!(matrix.user_count(), 0);
    assert_eq!(matrix.item_count(), 0);
    assert_eq!(matrix.user_capacity(), 3);
    assert_eq!(matrix.item_capacity(), 3);
}

#[test]
fn test_set_user() {
    let mut matrix = Matrix::new(3, 3);
    assert_eq!(matrix.set_user(1), Ok(0));
    assert_eq!(matrix.user_count(), 1);
    assert_eq!(matrix.user_id_at(0), 1);
}

#[test]
fn test_set_item() {
    let mut matrix = Matrix::new(3, 3);
    assert_eq!(matrix.set_item(1), Ok(0));
    assert_eq!(matrix.item_count(), 1);
    assert_eq!(matrix.item_id_at(0), 1);
}

#[test]
fn test_set_rating() {
    let mut matrix = Matrix::new(3, 3);
    matrix.set_user(1).unwrap();
    matrix.set_item(1).unwrap();
    matrix.set_rating(1, 1, fp(3.14));
    assert_eq!(matrix.get_rating(0, 0), Some(fp(3.14)));
}

#[test]
fn test_get_user_vector() {
    let mut matrix = Matrix::new(3, 3);
    matrix.set_user(1).unwrap();
    matrix.set_item(1).unwrap();
    matrix.set_rating(1, 1, fp(3.14));
    let user_vector = matrix.get_user_vector(1).unwrap();
    assert_eq!(user_vector.len(), 1);
    assert_eq!(user_vector[0], (0, fp(3.14)));
}

#[test]
fn test_get_closest_user() {
    let mut matrix = Matrix::new(3, 3);
    matrix.set_user(1).unwrap();
    matrix.set_user(2).unwrap();
    matrix.set_user(3).unwrap();
    matrix.set_item(1).unwrap();
    matrix.set_rating(1, 1, fp(3.14));
    matrix.set_rating(2, 1, fp(2.71));
    matrix.set_rating(3, 1, fp(1.41));
    let closest_user = matrix.get_closest_user(1);
    assert_eq!(closest_user, Some(2));
}

#[test]
fn test_get_recommendations() {
    let mut matrix = Matrix::new(3, 3);
    matrix.set_user(1).unwrap();
    matrix.set_user(2).unwrap();
    matrix.set_user(3).unwrap();
    matrix.set_item(1).unwrap();
    matrix.set_item(2).unwrap();
    matrix.set_item(3).unwrap();
    matrix.set_rating(1, 1, fp(3.14));
    matrix.set_rating(1, 2, fp(2.71));
    matrix.set_rating(1, 3, fp(1.41));
    matrix.set_rating(2, 2, fp(3.14));
    matrix.set_rating(2, 3, fp(1.41));
    matrix.set_rating(3, 2, fp(2.71));
    matrix.set_rating(3, 3, fp(3.14));
    let recommendations = matrix.get_recommendations(1);
    assert_eq!(recommendations, Ok(vec![3, 2]));
}

#[test]
fn test_registration_is_idempotent() {
    let mut matrix = Matrix::new(3, 3);
    assert_eq!(matrix.set_user(7), Ok(0));
    assert_eq!(matrix.set_user(7), Ok(0));
    assert_eq!(matrix.user_count(), 1);
    assert_eq!(matrix.set_item(9), Ok(0));
    assert_eq!(matrix.set_item(9), Ok(0));
    assert_eq!(matrix.item_count(), 1);
}

#[test]
fn test_capacity_violation() {
    let mut matrix = Matrix::new(1, 1);
    assert_eq!(matrix.set_user(1), Ok(0));
    assert_eq!(matrix.set_user(2), Err(BuildError::CapacityViolation));
    assert_eq!(matrix.user_count(), 1);
    assert_eq!(matrix.set_item(1), Ok(0));
    assert_eq!(matrix.set_item(2), Err(BuildError::CapacityViolation));
}

#[test]
fn test_zero_rating_stores_nothing() {
    let mut matrix = Matrix::new(3, 3);
    matrix.set_user(1).unwrap();
    matrix.set_item(1).unwrap();
    matrix.set_rating(1, 1, 0);
    assert_eq!(matrix.get_rating(0, 0), None);
    assert_eq!(matrix.get_user_vector(1).unwrap().len(), 0);
}

#[test]
fn test_rating_overwrite_last_write_wins() {
    let mut matrix = Matrix::new(3, 3);
    matrix.set_user(1).unwrap();
    matrix.set_item(1).unwrap();
    matrix.set_rating(1, 1, fp(3.14));
    matrix.set_rating(1, 1, fp(1.41));
    assert_eq!(matrix.get_rating(0, 0), Some(fp(1.41)));
    assert_eq!(matrix.get_user_vector(1).unwrap().len(), 1);
}

#[test]
fn test_similarity_symmetric() {
    let mut matrix = Matrix::new(3, 4);
    matrix.set_user(1).unwrap();
    matrix.set_user(2).unwrap();
    matrix.set_item(1).unwrap();
    matrix.set_item(2).unwrap();
    matrix.set_item(3).unwrap();
    matrix.set_rating(1, 1, fp(3.14));
    matrix.set_rating(1, 2, fp(2.71));
    matrix.set_rating(2, 2, fp(3.14));
    matrix.set_rating(2, 3, fp(1.41));
    let a = matrix.get_row(1).unwrap();
    let b = matrix.get_row(2).unwrap();
    // Only item 2 is rated by both users: 271 * 314.
    assert_eq!(similarity(&a, &b), 271 * 314);
    assert_eq!(similarity(&a, &b), similarity(&b, &a));
    let a2 = matrix.get_row(1).unwrap();
    assert_eq!(similarity(&a2, &a2), 314 * 314 + 271 * 271);
}

#[test]
fn test_no_other_user_is_no_recommendation() {
    let mut matrix = Matrix::new(2, 2);
    matrix.set_user(1).unwrap();
    matrix.set_item(1).unwrap();
    matrix.set_rating(1, 1, fp(3.14));
    assert_eq!(matrix.get_closest_user(1), None);
    assert_eq!(
        matrix.get_recommendations(1),
        Err(RecommendError::NoRecommendation)
    );
}

#[test]
fn test_unknown_user_outcome() {
    let mut matrix = Matrix::new(3, 3);
    matrix.set_user(1).unwrap();
    matrix.set_item(1).unwrap();
    matrix.set_rating(1, 1, fp(3.14));
    assert_eq!(
        matrix.get_recommendations(42),
        Err(RecommendError::UnknownUser)
    );
    assert_eq!(matrix.get_closest_user(42), None);
    assert_eq!(matrix.get_user_vector(42), None);
}

#[test]
fn test_neighbor_without_positive_ratings() {
    let mut matrix = Matrix::new(2, 2);
    matrix.set_user(1).unwrap();
    matrix.set_user(2).unwrap();
    matrix.set_item(1).unwrap();
    matrix.set_rating(1, 1, fp(3.14));
    matrix.set_rating(2, 1, -fp(2.71));
    assert_eq!(matrix.get_closest_user(1), Some(2));
    assert_eq!(
        matrix.get_recommendations(1),
        Err(RecommendError::NoRecommendation)
    );
}

#[test]
fn test_sort_by_rating_desc_stable() {
    let v: Vec<(usize, i64)> = vec![(0, 100), (1, 300), (2, 300), (3, -5)];
    let sorted = sort_by_rating_desc(&v);
    assert_eq!(sorted, vec![(1, 300), (2, 300), (0, 100), (3, -5)]);
}

#[test]
fn test_tie_break_prefers_first_registered() {
    let mut matrix = Matrix::new(3, 2);
    matrix.set_user(1).unwrap();
    matrix.set_user(2).unwrap();
    matrix.set_user(3).unwrap();
    matrix.set_item(1).unwrap();
    matrix.set_rating(1, 1, fp(1.0));
    matrix.set_rating(2, 1, fp(2.0));
    matrix.set_rating(3, 1, fp(2.0));
    assert_eq!(matrix.get_closest_user(1), Some(2));
}
