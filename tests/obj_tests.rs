use ray_tracing::obj::{ObjError, ObjModel};

fn model_of(text: &str) -> Result<ObjModel, ObjError> {
    let mut m = ObjModel::new();
    for line in text.lines() {
        m.parse_line(line.as_bytes())?;
    }
    Ok(m)
}

#[test]
fn vertex_records_keep_their_numerals() {
    let m = model_of("# a comment\nv 1.0 2.5 -3\nv 0 0 0 1\nv 1 2\n").unwrap();
    assert_eq!(m.vertices().len(), 2);
    assert_eq!(m.vertices()[0].x, b"1.0".to_vec());
    assert_eq!(m.vertices()[0].y, b"2.5".to_vec());
    assert_eq!(m.vertices()[0].z, b"-3".to_vec());
    assert_eq!(m.vertices()[1].z, b"0".to_vec());
}

#[test]
fn texture_and_normal_records() {
    let m = model_of("vt 0.5 0.25\nvt 1\nvn 0 0 1\n").unwrap();
    assert_eq!(m.texture_coords().len(), 1);
    assert_eq!(m.texture_coords()[0].u, b"0.5".to_vec());
    assert_eq!(m.texture_coords()[0].v, b"0.25".to_vec());
    assert_eq!(m.normals().len(), 1);
    assert_eq!(m.normals()[0].z, b"1".to_vec());
}

#[test]
fn face_indices_become_zero_based() {
    let m = model_of("f 1 2 3\nf 4/5/6 7//8 9/10\n").unwrap();
    let f = m.faces();
    assert_eq!(f.len(), 2);
    assert_eq!(f[0].vertex_indices, [0, 1, 2]);
    assert_eq!(f[0].texture_indices, [0, 0, 0]);
    assert_eq!(f[0].normal_indices, [0, 0, 0]);
    assert_eq!(f[1].vertex_indices, [3, 6, 8]);
    assert_eq!(f[1].texture_indices, [4, 0, 9]);
    assert_eq!(f[1].normal_indices, [5, 7, 0]);
}

#[test]
fn faces_that_are_not_triangles_are_skipped() {
    let m = model_of("f 1 2 3 4\nf 1 2\n").unwrap();
    assert!(m.faces().is_empty());
}

#[test]
fn malformed_face_index_is_refused() {
    for line in ["f 0 1 2", "f a 1 2", "f 1 2 -3", "f /1 2 3", "f 1/x 2 3"] {
        let mut m = ObjModel::new();
        m.parse_line(b"v 0 0 0").unwrap();
        assert_eq!(m.parse_line(line.as_bytes()), Err(ObjError::MalformedIndex), "{}", line);
        assert!(m.faces().is_empty());
        assert_eq!(m.vertices().len(), 1);
    }
}

#[test]
fn unknown_records_are_ignored() {
    let m = model_of("o cube\ng side\ns off\nusemtl red\n\n").unwrap();
    assert!(m.vertices().is_empty());
    assert!(m.faces().is_empty());
}

#[test]
fn triangles_without_normals_use_face_normal() {
    let m = model_of("v 0 0 0\nv 1 0 0\nv 0 1 0\nf 1 2 3\nf 3 2 1\n").unwrap();
    let t = m.to_triangles().unwrap();
    assert_eq!(t.len(), 2);
    assert_eq!(t[0].vertices, [0, 1, 2]);
    assert_eq!(t[0].normal, None);
    assert_eq!(t[1].vertices, [2, 1, 0]);
}

#[test]
fn triangles_with_normals_take_first_corner_normal() {
    let m = model_of("v 0 0 0\nv 1 0 0\nv 0 1 0\nvn 0 0 1\nvn 0 0 -1\nf 1//2 2//1 3//1\n").unwrap();
    let t = m.to_triangles().unwrap();
    assert_eq!(t[0].normal, Some(1));
}

#[test]
fn triangles_refuse_missing_vertices() {
    let m = model_of("v 0 0 0\nv 1 0 0\nf 1 2 3\n").unwrap();
    assert_eq!(m.to_triangles().unwrap_err(), ObjError::IndexOutOfRange);
    let m = model_of("v 0 0 0\nv 1 0 0\nv 0 1 0\nvn 0 0 1\nf 1//2 2//1 3//1\n").unwrap();
    assert_eq!(m.to_triangles().unwrap_err(), ObjError::IndexOutOfRange);
}

#[test]
fn empty_model_has_no_triangles() {
    assert!(ObjModel::new().to_triangles().unwrap().is_empty());
}

#[test]
fn whole_text_with_crlf_and_no_final_newline() {
    let m = ObjModel::parse(b"v 1 2 3\r\nv 4 5 6\r\nvn 0 1 0\r\nf 1//1 2//1 1//1").unwrap();
    assert_eq!(m.vertices().len(), 2);
    assert_eq!(m.vertices()[1].x, b"4".to_vec());
    assert_eq!(m.normals().len(), 1);
    assert_eq!(m.faces().len(), 1);
    assert_eq!(m.faces()[0].vertex_indices, [0, 1, 0]);
}

#[test]
fn whole_text_agrees_with_line_by_line() {
    let text = "# cube corner\nv 0 0 0\nv 1 0 0\n\nv 0 1 0\nvt 0 0\nf 1/1 2/1 3/1\n";
    let whole = ObjModel::parse(text.as_bytes()).unwrap();
    let lines = model_of(text).unwrap();
    assert_eq!(whole.vertices().len(), lines.vertices().len());
    assert_eq!(whole.texture_coords().len(), 1);
    assert_eq!(whole.faces()[0].vertex_indices, lines.faces()[0].vertex_indices);
    assert_eq!(whole.faces()[0].texture_indices, [0, 0, 0]);
}

#[test]
fn whole_text_refused_at_malformed_face() {
    let r = ObjModel::parse(b"v 0 0 0\nf 1 2 x\nv 1 1 1\n");
    assert_eq!(r.unwrap_err(), ObjError::MalformedIndex);
}

#[test]
fn empty_text_is_empty_model() {
    let m = ObjModel::parse(b"").unwrap();
    assert!(m.vertices().is_empty() && m.faces().is_empty());
}
