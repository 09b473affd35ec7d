use ds9::catalog::{Catalog, SortDir};
use ds9::num::Double;

fn value(x: Double) -> f64 {
    f64::from_bits(x.bits)
}

#[test]
fn parse_csv() {
    let txt = "X_IMAGE,Y_IMAGE,MAG\n100.5,200.3,18.5\n300.0,150.7,19.2\n";
    let cat = Catalog::from_text_auto(txt);
    assert_eq!(cat.columns, vec!["X_IMAGE", "Y_IMAGE", "MAG"]);
    assert_eq!(cat.len(), 2);
    let xy = cat.xy_iter();
    assert_eq!(xy.len(), 2);
    assert!((value(xy[0].0) - 100.5).abs() < 1e-9);
}

#[test]
fn parse_votable() {
    let txt = r#"<?xml version="1.0"?>
<VOTABLE>
  <RESOURCE><TABLE>
    <FIELD name="X_IMAGE"/>
    <FIELD name="Y_IMAGE"/>
    <FIELD name="MAG"/>
    <DATA><TABLEDATA>
      <TR><TD>100.5</TD><TD>200.3</TD><TD>18.5</TD></TR>
      <TR><TD>300.0</TD><TD>150.7</TD><TD>19.2</TD></TR>
    </TABLEDATA></DATA>
  </TABLE></RESOURCE>
</VOTABLE>"#;
    let cat = Catalog::from_text_auto(txt);
    assert_eq!(cat.columns.len(), 3);
    assert_eq!(cat.len(), 2);
    let xy = cat.xy_iter();
    assert_eq!(xy.len(), 2);
    assert!((value(xy[1].1) - 150.7).abs() < 1e-6);
}

#[test]
fn parse_sextractor() {
    let txt = "\
#   1 NUMBER         Running object number
#   2 X_IMAGE        Object position along x [pixel]
#   3 Y_IMAGE        Object position along y [pixel]
#   4 MAG_AUTO       Kron-like magnitude
   1   100.5  200.3  18.5
   2   300.0  150.7  19.2
";
    let cat = Catalog::from_sextractor(txt);
    assert_eq!(cat.columns, vec!["NUMBER", "X_IMAGE", "Y_IMAGE", "MAG_AUTO"]);
    assert_eq!(cat.rows.len(), 2);
    let xy = cat.xy_iter();
    assert_eq!(xy.len(), 2);
    assert!((value(xy[0].0) - 100.5).abs() < 1e-9);
}

#[test]
fn tables_with_tabs() {
    let cat = Catalog::from_text_auto("ID\tX\tY\n7\t1.5\t2.5\n8\t\t4\n");
    assert_eq!(cat.columns, vec!["ID", "X", "Y"]);
    assert_eq!(cat.len(), 2);
    assert!(!cat.is_empty());
    assert_eq!(cat.xy_columns(), Some((1, 2)));
    let xy = cat.xy_iter();
    assert_eq!(xy.len(), 1);
    assert_eq!((value(xy[0].0), value(xy[0].1)), (1.5, 2.5));
    assert_eq!(cat.col_index("Y"), Some(2));
    assert_eq!(cat.col_index("Z"), None);
}

#[test]
fn quoted_fields() {
    let cat = Catalog::from_csv("NAME,X,Y\n\"a, b\",1,2\n\"say \"\"hi\"\"\",3,4\n");
    assert_eq!(cat.rows[0][0], "a, b");
    assert_eq!(cat.rows[1][0], "say hi");
}

#[test]
fn sorting_is_stable() {
    let mut cat = Catalog::from_tsv("N\tM\na\t2\nb\t1\nc\t2\nd\t1\n");
    cat.sort_by(1, SortDir::Asc);
    let order: Vec<&str> = cat.rows.iter().map(|r| r[0].as_str()).collect();
    assert_eq!(order, vec!["b", "d", "a", "c"]);
    cat.sort_by(1, SortDir::Desc);
    let order: Vec<&str> = cat.rows.iter().map(|r| r[0].as_str()).collect();
    assert_eq!(order, vec!["a", "c", "b", "d"]);
    cat.sort_by(9, SortDir::Asc);
    assert_eq!(cat.rows[0][0], "a");
}

#[test]
fn tables_in_xml() {
    let text = "<VOTABLE><TABLE><FIELD name=\"Flux max\" datatype=\"float\"/><FIELD ID='b' name='B'/>\
                <FIELD/><TR><TD>1</TD><TD/><TD>3 &lt; 4</TD></TR></TABLE></VOTABLE>";
    let cat = Catalog::from_text_auto(text);
    assert_eq!(cat.columns, vec!["Flux max", "B", "col3"]);
    assert_eq!(cat.rows, vec![vec!["1", "", "3 < 4"]]);
    let cat = Catalog::from_votable("<!-- it's --><FIELD name=\"a > b\"><TR><TD>1</TD></TR>");
    assert_eq!((cat.columns, cat.rows), (vec![String::from("a > b")], vec![vec![String::from("1")]]));
    let cat = Catalog::from_votable("<TABLE><TR><TD>1</TD><TD />x<TD>3</TD></TR></TABLE>");
    assert_eq!(cat.rows, vec![vec!["1", "", "3"]]);
}

#[test]
fn nothing_to_read() {
    let cat = Catalog::from_text_auto("");
    assert!(cat.is_empty());
    assert_eq!(cat.xy_columns(), None);
    assert_eq!(cat.xy_iter().len(), 0);
}
