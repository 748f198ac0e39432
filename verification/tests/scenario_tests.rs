use model_manager::core_value::SerdeCoreValue;
use model_manager::dynamic::{DynamicValue, DynamicValueImpl};
use model_manager::manager::{ModelManager, SimpleModelManager};
use model_manager::traits::{CoreValue, ValueAnalysis, ValueIntrospection};

fn user() -> SerdeCoreValue {
    let mut u = SerdeCoreValue::new_object();
    u.set("name", SerdeCoreValue::from_str("Ana García")).unwrap();
    u.set("email", SerdeCoreValue::from_str("ana@empresa.com")).unwrap();
    u.set("department", SerdeCoreValue::from_str("Ventas")).unwrap();
    u.set("active", SerdeCoreValue::from_bool(true)).unwrap();
    u
}

fn updated_user() -> SerdeCoreValue {
    let mut u = SerdeCoreValue::new_object();
    u.set("name", SerdeCoreValue::from_str("Ana García Pérez")).unwrap();
    u.set("department", SerdeCoreValue::from_str("Ingeniería")).unwrap();
    u
}

#[test]
fn crud_round_trip_of_one_user() {
    let mut m = SimpleModelManager::new();
    let inserted = m.insert("users", Some("usr_001"), user()).unwrap();
    assert!(inserted.equals(&user()).unwrap());
    let retrieved = m.get("users", "usr_001").unwrap();
    assert!(retrieved.equals(&user()).unwrap());
    let updated = m.update("users", "usr_001", updated_user()).unwrap();
    assert!(updated.equals(&updated_user()).unwrap());
    assert_eq!(updated.count_properties().unwrap(), 2);
    assert_eq!(m.get_all("users").unwrap().len(), 1);
    let removed = m.remove("users", "usr_001").unwrap();
    assert!(removed.equals(&updated_user()).unwrap());
    assert_eq!(m.count("users").unwrap(), 0);
}

#[test]
fn dynamic_read_after_path_write() {
    let mut v = DynamicValueImpl::new_object();
    v.set_by_path("a.b.c", DynamicValueImpl::from_str("deep")).unwrap();
    assert_eq!(v.get_by_path("a.b.c").unwrap().unwrap().as_str(), Some("deep".to_string()));
    v.set_by_path("a.b", DynamicValueImpl::from_bool(true)).unwrap();
    assert_eq!(v.get_by_path("a.b").unwrap().unwrap().as_bool(), Some(true));
}

#[test]
fn nested_company_structure() {
    let mut company = SerdeCoreValue::new_object();
    company.set("name", SerdeCoreValue::from_str("TechCorp SA")).unwrap();
    let mut departments = SerdeCoreValue::new_array();
    for i in 0..5 {
        let mut dept = SerdeCoreValue::new_object();
        dept.set("name", SerdeCoreValue::from_str(&format!("Departamento {}", i))).unwrap();
        let mut employees = SerdeCoreValue::new_array();
        for j in 0..10 {
            let mut emp = SerdeCoreValue::new_object();
            emp.set("salary", SerdeCoreValue::from_number((50000.0 + j as f64 * 1000.0).to_bits()).unwrap())
                .unwrap();
            employees.push(emp).unwrap();
        }
        dept.set("employees", employees).unwrap();
        departments.push(dept).unwrap();
    }
    company.set("departments", departments).unwrap();
    let mut m = SimpleModelManager::new();
    let inserted = m.insert("companies", Some("company_001"), company).unwrap();
    assert_eq!(inserted.get_type(), "Object");
    let depts = inserted.get("departments").unwrap().unwrap().as_array().unwrap().unwrap();
    assert_eq!(depts.len(), 5);
    let emps = depts[3].get("employees").unwrap().unwrap().as_array().unwrap().unwrap();
    assert_eq!(emps.len(), 10);
    assert_eq!(depts[3].get("name").unwrap().unwrap().as_str(), Some("Departamento 3".to_string()));
}
