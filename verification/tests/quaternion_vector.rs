use orml::quaternion::Quaternion;
use orml::vector::Vector;

#[test]
fn mul_vec3_id() {
    let q_arr = [0.0, 0.0, 0.0, 1.0];
    let v_arr = [1.0, 1.0, 1.0];
    let q1 = Quaternion::from_array(q_arr);
    let v1 = Vector::from_array(v_arr);

    let r = q1 * v1;

    assert_eq!([1.0, 1.0, 1.0], r.to_array());
}

#[test]
fn mul_vec3() {
    let q_arr = [1.0, 0.0, 1.0, 5.0];
    let v_arr = [2.0, 1.0, 1.0];
    let q1 = Quaternion::from_array(q_arr);
    let v1 = Vector::from_array(v_arr);

    let r = q1 * v1;

    assert_eq!([42.0, 33.0, 39.0], r.to_array());
}

#[test]
fn mul_vec3_of_whole_numbers() {
    let q1 = Quaternion::from_array([1, 2, 3, 4]);
    let v1 = Vector::from_array([5, 6, 7]);

    let r = q1 * v1;

    assert_eq!([54, 228, 210], r.to_array());
}

#[test]
fn a_vector_of_four_is_a_quaternion() {
    let v: Vector<i32, 4> = [1, 2, 3, 4].into();
    let q: Quaternion<i32> = v.into();
    assert_eq!(q, Quaternion::from_array([1, 2, 3, 4]));
    let back: Vector<i32, 4> = q.into();
    assert_eq!(back, v);
}
